use clerk::link_mode::{LinkMode, LinkModeError};

fn mode_of_uri(uri: &str) -> Result<LinkMode, String> {
    let url = url::Url::parse(uri).unwrap();
    LinkMode::from_query(url.query().unwrap_or("")).map_err(|e| e.message())
}

fn create_cases() -> Vec<(&'static str, LinkMode)> {
    vec![
        ("http://localhost:4000/init", LinkMode::Create),
        ("http://localhost:4000/init?mode=create", LinkMode::Create),
        ("http://localhost:4000/init?mode=create&token=foobar", LinkMode::Create),
        ("http://localhost:4000/init?mode=update&token=foobar", LinkMode::Update("foobar".to_string())),
    ]
}

fn rejected_cases() -> Vec<(&'static str, Result<LinkMode, String>)> {
    vec![
        ("http://localhost:4000/init?mode=invalid", Err("unsupported mode argument".to_string())),
        ("http://localhost:4000/init?mode=update", Err("update mode must include token".to_string())),
    ]
}

#[test]
fn lib_extract_mode_from_query() {
    for t in create_cases() {
        assert_eq!(mode_of_uri(t.0), Ok(t.1))
    }
}

#[test]
fn lib_extract_mode_from_query_rejects_invalid_params() {
    for t in rejected_cases() {
        assert_eq!(mode_of_uri(t.0), t.1)
    }
}

#[test]
fn link_server_extract_mode_from_query() {
    for t in create_cases() {
        assert_eq!(mode_of_uri(t.0), Ok(t.1))
    }
}

#[test]
fn link_server_extract_mode_from_query_rejects_invalid_params() {
    for t in rejected_cases() {
        assert_eq!(mode_of_uri(t.0), t.1)
    }
}

#[test]
fn query_values_are_decoded_and_first_pair_wins() {
    assert_eq!(LinkMode::from_query("token=a%20b&mode=update&token=c"), Ok(LinkMode::Update("a b".to_string())));
    assert_eq!(LinkMode::from_query("mode=bogus&mode=create"), Err(LinkModeError::UnsupportedMode));
    assert_eq!(
        LinkMode::from_pairs(&vec![("mode".to_string(), "update".to_string())]),
        Err(LinkModeError::MissingToken)
    );
}
