use phantom::config::{
    Config, ConfigError, ImportsConfig, LogsConfig, OrganizeConfig, ParamValue, RuleMap, RuleParams,
};
use phantom::linter::check_config;
use phantom::linter::factory::RuleFactory;
use phantom::pipeline::parse;

fn to_param(value: &serde_json::Value) -> ParamValue {
    match value {
        serde_json::Value::Null => ParamValue::Null,
        serde_json::Value::Bool(b) => ParamValue::Bool(*b),
        serde_json::Value::Number(n) => match n.as_u64() {
            Some(u) => ParamValue::Unsigned(u),
            None => ParamValue::Number,
        },
        serde_json::Value::String(s) => ParamValue::Text(s.clone()),
        serde_json::Value::Array(items) => ParamValue::List(items.iter().map(to_param).collect()),
        serde_json::Value::Object(members) => {
            ParamValue::Object(members.iter().map(|(k, v)| (k.clone(), to_param(v))).collect())
        }
    }
}

fn logs_from(value: &serde_json::Value) -> LogsConfig {
    LogsConfig {
        level: value["level"].as_str().unwrap().to_string(),
        file: value["file"].as_str().unwrap().to_string(),
    }
}

fn imports_from(value: &serde_json::Value) -> ImportsConfig {
    ImportsConfig {
        organize: OrganizeConfig { enabled: value["organize"]["enabled"].as_bool().unwrap() },
    }
}

fn config_from(value: &serde_json::Value) -> Config {
    let mut rules = RuleMap::new();
    for (name, entry) in value["rules"].as_object().unwrap() {
        let level = entry[0].as_str().unwrap().to_string();
        let params = match &entry[1] {
            serde_json::Value::Null => None,
            other => Some(to_param(other)),
        };
        rules.insert(name.clone(), RuleParams(level, params));
    }
    Config { logs: logs_from(&value["logs"]), imports: imports_from(&value["imports"]), rules }
}

fn plain_config(rules: RuleMap) -> Config {
    Config {
        logs: LogsConfig { level: "info".to_string(), file: "logs/app.log".to_string() },
        imports: ImportsConfig { organize: OrganizeConfig { enabled: true } },
        rules,
    }
}

#[test]
fn logs_test() {
    let source = r#"
        {
            "level": "info",
            "file": "logs/app.log"
        }"#;

    let config: LogsConfig = logs_from(&serde_json::from_str(source).unwrap());
    assert_eq!(config.level, "info");
    assert_eq!(config.file, "logs/app.log");
}

#[test]
fn imports_test() {
    let source = r#"
        {
            "organize": {
                "enabled": true
            }
        }"#;

    let config: ImportsConfig = imports_from(&serde_json::from_str(source).unwrap());
    assert_eq!(config.organize.enabled, true);
}

#[test]
fn config_test() {
    let source = r#"
        {
            "logs": {
                "level": "info",
                "file": "logs/app.log"
            },
            "imports": {
                "organize": {
                    "enabled": true
                }
            },
            "rules": {
                "rule1": ["param1", null],
                "rule2": ["param2", {"key": "value"}]
            }
        }"#;

    let config: Config = config_from(&serde_json::from_str(source).unwrap());
    assert_eq!(config.logs.level, "info");
    assert_eq!(config.logs.file, "logs/app.log");
    assert_eq!(config.imports.organize.enabled, true);
    assert_eq!(config.rules.get("rule1").unwrap().0, "param1");
    assert_eq!(config.rules.get("rule1").unwrap().1, None);
    assert_eq!(config.rules.get("rule2").unwrap().0, "param2");
    assert_eq!(
        config.rules.get("rule2").unwrap().1,
        Some(ParamValue::Object(vec![("key".to_string(), ParamValue::Text("value".to_string()))]))
    );
}

#[test]
fn rule_map_keeps_one_entry_per_name() {
    let mut rules = RuleMap::new();
    rules.insert("line-length".to_string(), RuleParams("error".to_string(), None));
    rules.insert("enforce-namespace".to_string(), RuleParams("warn".to_string(), None));
    rules.insert("line-length".to_string(), RuleParams("off".to_string(), None));
    assert_eq!(rules.len(), 2);
    assert_eq!(rules.get("line-length").unwrap().0, "off");
    assert_eq!(rules.entry(0).0, "line-length");
    assert_eq!(rules.entry(1).0, "enforce-namespace");
    assert!(rules.get("missing").is_none());
}

#[test]
fn param_value_accessors() {
    let value = ParamValue::Object(vec![
        ("max".to_string(), ParamValue::Unsigned(80)),
        ("max".to_string(), ParamValue::Unsigned(90)),
        ("flag".to_string(), ParamValue::Bool(true)),
        ("ratio".to_string(), ParamValue::Number),
    ]);
    assert_eq!(value.get("max").unwrap().as_u64(), Some(80));
    assert_eq!(value.get("flag").unwrap().as_bool(), Some(true));
    assert_eq!(value.get("ratio").unwrap().as_u64(), None);
    assert!(value.get("none").is_none());
    assert!(ParamValue::Null.get("max").is_none());
    assert_eq!(ParamValue::Text("a".to_string()).as_str(), Some("a"));
    assert!(ParamValue::List(vec![]).as_array().unwrap().is_empty());
}

#[test]
fn every_rule_name_is_known() {
    assert!(matches!(RuleFactory::get("enforce-namespace"), Ok(RuleFactory::EnforceNamespace(_))));
    assert!(matches!(
        RuleFactory::get("disallow-debug-functions"),
        Ok(RuleFactory::DisallowDebugFunctions(_))
    ));
    assert!(matches!(RuleFactory::get("line-length"), Ok(RuleFactory::LineLength(_))));
    assert!(matches!(
        RuleFactory::get("single-class-per-file"),
        Ok(RuleFactory::SingleClassPerFile(_))
    ));
    assert!(matches!(RuleFactory::get("class-member-order"), Ok(RuleFactory::ClassMemberOrder(_))));
}

#[test]
fn unknown_rule_name_is_refused() {
    assert_eq!(
        RuleFactory::get("no-such-rule").unwrap_err(),
        ConfigError::UnknownRule("no-such-rule".to_string())
    );
    let mut rules = RuleMap::new();
    rules.insert("single-class-per-file".to_string(), RuleParams("error".to_string(), None));
    rules.insert("no-such-rule".to_string(), RuleParams("off".to_string(), None));
    let config = plain_config(rules);
    assert_eq!(check_config(&config), Err(ConfigError::UnknownRule("no-such-rule".to_string())));
    // The source does not matter: not even its missing opening tag is reported.
    let refused = parse("no opening tag", &config);
    assert_eq!(refused.unwrap_err(), ConfigError::UnknownRule("no-such-rule".to_string()));
    assert_eq!(
        ConfigError::UnknownRule("no-such-rule".to_string()).message(),
        "Invalid rule name: no-such-rule"
    );
}

#[test]
fn malformed_params_are_refused_unless_the_rule_is_off() {
    let without_max = || Some(ParamValue::Object(vec![("min".to_string(), ParamValue::Unsigned(1))]));
    let mut rules = RuleMap::new();
    rules.insert("line-length".to_string(), RuleParams("error".to_string(), without_max()));
    assert_eq!(
        check_config(&plain_config(rules)),
        Err(ConfigError::MalformedParams("line-length".to_string()))
    );
    let mut rules = RuleMap::new();
    rules.insert("line-length".to_string(), RuleParams("off".to_string(), without_max()));
    assert_eq!(check_config(&plain_config(rules)), Ok(()));
    let mut rules = RuleMap::new();
    rules.insert(
        "class-member-order".to_string(),
        RuleParams(
            "error".to_string(),
            Some(ParamValue::Object(vec![(
                "order".to_string(),
                ParamValue::List(vec![ParamValue::Text("methods".to_string()), ParamValue::Unsigned(1)]),
            )])),
        ),
    );
    assert_eq!(
        check_config(&plain_config(rules)),
        Err(ConfigError::MalformedParams("class-member-order".to_string()))
    );
    assert_eq!(
        ConfigError::MalformedParams("line-length".to_string()).message(),
        "Invalid parameters for rule: line-length"
    );
}

#[test]
fn a_value_and_its_copy_are_equal() {
    let value = ParamValue::Object(vec![
        ("order".to_string(), ParamValue::List(vec![ParamValue::Text("methods".to_string()), ParamValue::Null])),
        ("max".to_string(), ParamValue::Unsigned(80)),
        ("ratio".to_string(), ParamValue::Number),
        ("flag".to_string(), ParamValue::Bool(false)),
    ]);
    assert_eq!(value.clone(), value);
    let params = RuleParams("warn".to_string(), Some(value));
    assert_eq!(params.clone(), params);
    assert_eq!(RuleParams("off".to_string(), None).clone(), RuleParams("off".to_string(), None));
}
