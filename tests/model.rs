use wakeup_gateway::model::{
    parse_i64, parse_model_enum_name, parse_placeholder_model_index, resolve_model_constant,
    resolve_requested_model, ModelEntry, ModelResolutionError,
};

fn entry(id: &str, constant: Option<&str>) -> ModelEntry {
    ModelEntry { id: id.to_string(), model_constant: constant.map(|c| c.to_string()) }
}

#[test]
fn placeholder_alias_resolves_to_base_plus_index() {
    let catalog = vec![entry("gemini-3-flash", Some("MODEL_PLACEHOLDER_M18")), entry("other", Some("PLACEHOLDER_M0"))];
    assert_eq!(resolve_requested_model(" gemini-3-flash ", Some(&catalog)), Ok(1018));
    assert_eq!(resolve_requested_model("other", Some(&catalog)), Ok(1000));
    for n in [0i64, 7, 26, 999, 123456] {
        let constant = format!("PLACEHOLDER_M{}", n);
        let catalog = vec![entry("alias", Some(&constant))];
        assert_eq!(resolve_requested_model("alias", Some(&catalog)), Ok(1000 + n));
    }
}

#[test]
fn numeric_alias_is_used_directly() {
    assert_eq!(resolve_requested_model(" 312 ", None), Ok(312));
    assert_eq!(resolve_requested_model("-5", None), Ok(-5));
}

#[test]
fn strict_resolution_failures() {
    let catalog = vec![entry("a", None), entry("b", Some("  ")), entry("c", Some("NOT_A_MODEL"))];
    assert_eq!(resolve_requested_model("x", None), Err(ModelResolutionError::CatalogMissing));
    assert_eq!(resolve_requested_model("x", Some(&catalog)), Err(ModelResolutionError::NotListed));
    assert_eq!(resolve_requested_model("a", Some(&catalog)), Err(ModelResolutionError::MissingConstant));
    assert_eq!(resolve_requested_model("b", Some(&catalog)), Err(ModelResolutionError::MissingConstant));
    assert_eq!(resolve_requested_model("c", Some(&catalog)), Err(ModelResolutionError::Unmappable));
}

#[test]
fn model_constants() {
    assert_eq!(resolve_model_constant(" 42 "), Ok(42));
    assert_eq!(resolve_model_constant("MODEL_OPENAI_GPT_OSS_120B_MEDIUM"), Ok(342));
    assert_eq!(parse_model_enum_name("OPENAI_GPT_OSS_120B_MEDIUM"), Some(342));
    assert_eq!(parse_model_enum_name("PLACEHOLDER_M"), None);
    assert_eq!(parse_placeholder_model_index("xxPLACEHOLDER_M12abc"), Some(12));
    assert_eq!(parse_placeholder_model_index("PLACEHOLDER_Mx"), None);
    assert_eq!(parse_placeholder_model_index("PLACEHOLDER_M99999999999999999999"), None);
    assert_eq!(parse_i64("9223372036854775807"), Some(i64::MAX));
    assert_eq!(parse_i64("-9223372036854775808"), Some(i64::MIN));
    assert_eq!(parse_i64("9223372036854775808"), None);
    assert_eq!(parse_i64("+"), None);
}
