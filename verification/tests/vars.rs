use zenoh_flow::utils::{deserializer, try_load_from_file, Format, LoadError};
use zenoh_flow::vars::{
    has_partial_definition, has_partial_inclusion, parse_vars, ExpandError, ParseVarsError, Vars,
};

fn pair(k: &str, v: &str) -> (String, String) {
    (k.to_string(), v.to_string())
}

#[test]
fn empty_vars_bind_nothing() {
    let vars = Vars::new();
    assert_eq!(vars.len(), 0);
    assert!(vars.get("BUILD").is_none());
}

#[test]
fn default_vars_bind_nothing() {
    let vars = Vars::default();
    assert_eq!(vars.len(), 0);
    assert!(vars.entries().is_empty());
}

#[test]
fn clone_has_the_same_variables_in_the_same_order() {
    let mut vars = Vars::from(vec![pair("B", "2"), pair("A", "1")]);
    let copy = vars.clone();
    vars.insert("A".to_string(), "changed".to_string());
    assert_eq!(copy.entries(), &vec![pair("B", "2"), pair("A", "1")]);
    assert_eq!(copy.get("A").unwrap(), "1");
    assert_eq!(vars.get("A").unwrap(), "changed");
    assert_eq!(Vars::new().clone().len(), 0);
}

#[test]
fn expand_escapes_values_as_the_renderer_does() {
    let vars = Vars::from(vec![pair("CMD", "a<b")]);
    assert_eq!(vars.expand("run: {{ CMD }}").unwrap(), "run: a&lt;b");
    assert_eq!(vars.expand("run: {{{ CMD }}}").unwrap(), "run: a<b");
}

#[test]
fn from_pairs_keeps_the_last_value_of_a_name() {
    let vars = Vars::from(vec![pair("BUILD", "debug"), pair("DLL_EXT", "so"), pair("BUILD", "release")]);
    assert_eq!(vars.len(), 2);
    assert_eq!(vars.get("BUILD").unwrap(), "release");
    assert_eq!(vars.get("DLL_EXT").unwrap(), "so");
    assert!(vars.get("OTHER").is_none());
}

#[test]
fn insert_replaces_the_value_of_a_bound_name() {
    let mut vars = Vars::new();
    vars.insert("A".to_string(), "1".to_string());
    vars.insert("B".to_string(), "2".to_string());
    vars.insert("A".to_string(), "3".to_string());
    assert_eq!(vars.len(), 2);
    assert_eq!(vars.get("A").unwrap(), "3");
    assert_eq!(vars.get("B").unwrap(), "2");
}

#[test]
fn merge_overwrite_prefers_the_receiver() {
    let mine = Vars::from(vec![pair("BUILD", "release"), pair("ONLY_MINE", "x")]);
    let other = Vars::from(vec![pair("BUILD", "debug"), pair("DLL_EXT", "so")]);
    let merged = mine.merge_overwrite(other);
    assert_eq!(merged.len(), 3);
    assert_eq!(merged.get("BUILD").unwrap(), "release");
    assert_eq!(merged.get("DLL_EXT").unwrap(), "so");
    assert_eq!(merged.get("ONLY_MINE").unwrap(), "x");
}

#[test]
fn merge_overwrite_with_empty_is_identity() {
    let mine = Vars::from(vec![pair("A", "1")]);
    let merged = mine.merge_overwrite(Vars::new());
    assert_eq!(merged.len(), 1);
    assert_eq!(merged.get("A").unwrap(), "1");
    let merged = Vars::new().merge_overwrite(Vars::from(vec![pair("A", "1")]));
    assert_eq!(merged.len(), 1);
    assert_eq!(merged.get("A").unwrap(), "1");
}

#[test]
fn parse_vars_splits_at_the_first_equals() {
    let (k, v) = parse_vars("KEY=VALUE").unwrap();
    assert_eq!(k, "KEY");
    assert_eq!(v, "VALUE");
    let (k, v) = parse_vars("a=b=c").unwrap();
    assert_eq!(k, "a");
    assert_eq!(v, "b=c");
}

#[test]
fn parse_vars_accepts_empty_key_or_value() {
    let (k, v) = parse_vars("=x").unwrap();
    assert_eq!(k, "");
    assert_eq!(v, "x");
    let (k, v) = parse_vars("x=").unwrap();
    assert_eq!(k, "x");
    assert_eq!(v, "");
    let (k, v) = parse_vars("=").unwrap();
    assert_eq!(k, "");
    assert_eq!(v, "");
}

#[test]
fn parse_vars_counts_characters_not_bytes() {
    let (k, v) = parse_vars("clé=valeur é").unwrap();
    assert_eq!(k, "clé");
    assert_eq!(v, "valeur é");
}

#[test]
fn parse_vars_without_equals_is_an_error() {
    match parse_vars("KEYVALUE") {
        Err(ParseVarsError::MissingSeparator(text)) => assert_eq!(text, "KEYVALUE"),
        Ok(_) => panic!("a text without `=` was split"),
    }
    assert!(matches!(parse_vars(""), Err(ParseVarsError::MissingSeparator(_))));
}

#[test]
fn partial_inclusion_is_found() {
    assert!(has_partial_inclusion("{{> header}}"));
    assert!(has_partial_inclusion("a {{~> header}} b"));
    assert!(has_partial_inclusion("{{ #> layout}}x{{/layout}}"));
    assert!(has_partial_inclusion("{{{> x}}"));
    assert!(!has_partial_inclusion("{{ BUILD }}"));
    assert!(!has_partial_inclusion("description: >\n  folded {{ BUILD }}"));
    assert!(!has_partial_inclusion("{ {> x}}"));
    assert!(!has_partial_inclusion("{{a > b}}"));
    assert!(!has_partial_inclusion(""));
}

#[test]
fn partial_definition_is_found() {
    assert!(has_partial_definition("{{#*inline \"a\"}}x{{/inline}}"));
    assert!(has_partial_definition("{{~# * inline \"a\"}}x{{/inline}}"));
    assert!(has_partial_definition("{{#> layout}}x{{/layout}}"));
    assert!(has_partial_definition("a {{ #\n> layout}}x{{/layout}}"));
    assert!(!has_partial_definition("{{> header}}"));
    assert!(!has_partial_definition("{{*inline}}"));
    assert!(!has_partial_definition("{{#if a}}*{{/if}}"));
    assert!(!has_partial_definition("{ {#> x}}"));
    assert!(!has_partial_definition("# > *"));
    assert!(!has_partial_definition(""));
}

#[test]
fn expand_renders_a_partial_that_has_no_body() {
    let vars = Vars::from(vec![pair("BUILD", "debug")]);
    assert_eq!(vars.expand("a{{> header}}b {{ BUILD }}").unwrap(), "ab debug");
    assert_eq!(vars.expand("a{{! see {{> header }}b").unwrap(), "ab");
    assert_eq!(vars.expand("a \\{{> header}} b").unwrap(), "a {{> header}} b");
}

#[test]
fn expand_renders_a_definition_that_is_not_included() {
    let vars = Vars::new();
    assert_eq!(vars.expand("{{#*inline \"a\"}}x{{/inline}}y").unwrap(), "y");
}

#[test]
fn expand_replaces_each_placeholder() {
    let vars = Vars::from(vec![pair("BUILD", "debug"), pair("DLL_EXT", "so")]);
    let text = vars
        .expand("library: target/{{ BUILD }}/libmy_source.{{DLL_EXT}}")
        .unwrap();
    assert_eq!(text, "library: target/debug/libmy_source.so");
}

#[test]
fn expand_without_placeholders_keeps_the_text() {
    let vars = Vars::new();
    assert_eq!(vars.expand("id: my-source").unwrap(), "id: my-source");
}

#[test]
fn expand_fails_on_a_variable_without_value() {
    let vars = Vars::from(vec![pair("BUILD", "debug")]);
    assert!(matches!(
        vars.expand("{{ BUILD }}/{{ MISSING }}"),
        Err(ExpandError::Render(_))
    ));
}

#[test]
fn expand_fails_on_a_malformed_template() {
    let vars = Vars::new();
    assert!(matches!(vars.expand("{{ BUILD"), Err(ExpandError::Render(_))));
}

#[test]
fn expand_refuses_partials_that_may_include_themselves() {
    let vars = Vars::new();
    assert!(matches!(
        vars.expand("{{#*inline \"a\"}}{{> a}}{{/inline}}{{> a}}"),
        Err(ExpandError::PartialInclusion)
    ));
    assert!(matches!(
        vars.expand("{{#> a}}{{> @partial-block}}{{/a}}"),
        Err(ExpandError::PartialInclusion)
    ));
    assert!(matches!(
        vars.expand("{{#*inline \"a\"}}x{{/inline}}{{> a}}"),
        Err(ExpandError::PartialInclusion)
    ));
}

#[test]
fn deserializer_chooses_the_format() {
    assert_eq!(deserializer(Some("json")).unwrap(), Format::Json);
    assert_eq!(deserializer(Some("yml")).unwrap(), Format::Yaml);
    assert_eq!(deserializer(Some("yaml")).unwrap(), Format::Yaml);
}

#[test]
fn deserializer_reports_other_extensions() {
    match deserializer(Some("toml")) {
        Err(LoadError::UnsupportedExtension(e)) => assert_eq!(e, "toml"),
        _ => panic!("`toml` was accepted"),
    }
    assert!(matches!(deserializer(Some("JSON")), Err(LoadError::UnsupportedExtension(_))));
    assert!(matches!(deserializer(Some("")), Err(LoadError::UnsupportedExtension(_))));
    assert!(matches!(deserializer(None), Err(LoadError::MissingExtension)));
}

#[test]
fn load_merges_and_expands() {
    let declared = Vars::from(vec![pair("BUILD", "debug"), pair("DLL_EXT", "so")]);
    let given = Vars::from(vec![pair("BUILD", "release")]);
    let (format, text, merged) =
        try_load_from_file(Some("yaml"), "lib: {{ BUILD }}.{{ DLL_EXT }}", declared, given).unwrap();
    assert_eq!(format, Format::Yaml);
    assert_eq!(text, "lib: release.so");
    assert_eq!(merged.len(), 2);
    assert_eq!(merged.get("BUILD").unwrap(), "release");
    assert_eq!(merged.get("DLL_EXT").unwrap(), "so");
}

#[test]
fn load_looks_at_the_extension_first() {
    let r = try_load_from_file(Some("txt"), "{{ MISSING }}", Vars::new(), Vars::new());
    assert!(matches!(r, Err(LoadError::UnsupportedExtension(_))));
    let r = try_load_from_file(None, "{{ MISSING }}", Vars::new(), Vars::new());
    assert!(matches!(r, Err(LoadError::MissingExtension)));
}

#[test]
fn load_reports_a_failed_expansion() {
    let r = try_load_from_file(Some("json"), "{{ MISSING }}", Vars::new(), Vars::new());
    assert!(matches!(r, Err(LoadError::Expansion(ExpandError::Render(_)))));
    let r = try_load_from_file(Some("json"), "{{#> part}}x{{/part}}", Vars::new(), Vars::new());
    assert!(matches!(r, Err(LoadError::Expansion(ExpandError::PartialInclusion))));
}
