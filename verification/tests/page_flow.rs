//! The page-assembly state machine end to end: header phase, body phase,
//! component switching, dynamic expansion, recursion guard and inline error
//! rendering, against the real template engine.

use sqlpage::json::JsonVal;
use sqlpage::render::{HeaderContext, PageContext, RenderContext};
use sqlpage::templates::TemplateStore;

fn obj(fields: Vec<(&str, JsonVal)>) -> JsonVal {
    JsonVal::Obj(
        fields
            .into_iter()
            .map(|(k, v)| (k.to_string(), v))
            .collect(),
    )
}

fn s(v: &str) -> JsonVal {
    JsonVal::Str(v.to_string())
}

/// A store whose templates frame their output with distinctive markers, so
/// that a whole page's ordering can be asserted exactly.
fn test_store() -> TemplateStore {
    let mut store = TemplateStore::new(handlebars::Handlebars::new());
    store.add_template("shell".to_string(), "S<{{title}}", "|", ">S").unwrap();
    store.add_template("default".to_string(), "D<", "d", ">D").unwrap();
    store.add_template("list".to_string(), "L<", "({{x}})", ">L").unwrap();
    store.add_template("a".to_string(), "A<", "({{x}})", ">A").unwrap();
    store
        .add_template("error".to_string(), "E<", "[{{query_number}}:{{description}}]", ">E")
        .unwrap();
    store
}

fn body_of(page: PageContext) -> RenderContext {
    match page {
        PageContext::Body { renderer, .. } => renderer,
        PageContext::Header(_) => panic!("expected the body phase"),
    }
}

#[test]
fn simple_page_renders_in_order() {
    let store = test_store();
    let header = HeaderContext::new(String::new());
    let page = header
        .handle_row(&store, obj(vec![("component", s("list"))]))
        .unwrap();
    let mut body = body_of(page);
    body.handle_row(&store, &obj(vec![("x", JsonVal::I64(1))])).unwrap();
    body.handle_row(&store, &obj(vec![("x", JsonVal::I64(2))])).unwrap();
    let out = body.close(&store);
    assert_eq!(out, "S<L<(1)|(2)|>L>S");
}

#[test]
fn shell_row_sets_shell_properties() {
    let store = test_store();
    let header = HeaderContext::new(String::new());
    let page = header
        .handle_row(&store, obj(vec![("component", s("shell")), ("title", s("T"))]))
        .unwrap();
    let mut body = body_of(page);
    let out = body.close(&store);
    assert_eq!(out, "S<TD<>D>S");
}

#[test]
fn top_level_dynamic_sets_shell_properties() {
    let store = test_store();
    let header = HeaderContext::new(String::new());
    let dynamic_row = obj(vec![
        ("component", s("dynamic")),
        ("properties", obj(vec![("component", s("shell")), ("title", s("T"))])),
    ]);
    let page = header.handle_row(&store, dynamic_row).unwrap();
    let mut body = body_of(page);
    let out = body.close(&store);
    assert_eq!(out, "S<TD<>D>S");
}

#[test]
fn top_level_dynamic_with_two_rows_fails() {
    let store = test_store();
    let header = HeaderContext::new(String::new());
    let dynamic_row = obj(vec![
        ("component", s("dynamic")),
        ("properties", JsonVal::Arr(vec![obj(vec![]), obj(vec![])])),
    ]);
    assert!(header.handle_row(&store, dynamic_row).is_err());
}

#[test]
fn component_switch_closes_and_opens() {
    let store = test_store();
    let header = HeaderContext::new(String::new());
    let page = header
        .handle_row(&store, obj(vec![("component", s("default"))]))
        .unwrap();
    let mut body = body_of(page);
    body.handle_row(&store, &obj(vec![("component", s("list"))])).unwrap();
    body.handle_row(&store, &obj(vec![("x", JsonVal::I64(7))])).unwrap();
    let out = body.close(&store);
    assert_eq!(out, "S<D<>DL<(7)|>L>S");
}

#[test]
fn http_header_row_sets_response_header() {
    let store = test_store();
    let header = HeaderContext::new(String::new());
    let page = header
        .handle_row(&store, obj(vec![("component", s("http_header")), ("X-Test", s("v"))]))
        .unwrap();
    let header = match page {
        PageContext::Header(h) => h,
        PageContext::Body { .. } => panic!("an http_header row stays in the header phase"),
    };
    assert_eq!(header.response.status, 200);
    assert_eq!(header.response.content_type, "text/html; charset=utf-8");
    assert_eq!(header.response.headers, vec![("X-Test".to_string(), "v".to_string())]);
    let page = header
        .handle_row(&store, obj(vec![("component", s("default"))]))
        .unwrap();
    let (response, out) = match page {
        PageContext::Body { http_response, mut renderer } => {
            let out = renderer.close(&store);
            (http_response, out)
        },
        PageContext::Header(_) => panic!("expected the body phase"),
    };
    assert_eq!(response.headers, vec![("X-Test".to_string(), "v".to_string())]);
    assert_eq!(out, "S<D<>D>S");
}

#[test]
fn non_string_header_value_fails() {
    let store = test_store();
    let header = HeaderContext::new(String::new());
    let row = obj(vec![("component", s("http_header")), ("X-N", JsonVal::I64(1))]);
    assert!(header.handle_row(&store, row).is_err());
}

#[test]
fn http_header_after_body_is_an_inline_error() {
    let store = test_store();
    let header = HeaderContext::new(String::new());
    let page = header
        .handle_row(&store, obj(vec![("component", s("default"))]))
        .unwrap();
    let page = page
        .step(&store, obj(vec![("component", s("http_header")), ("X-Late", s("v"))]))
        .unwrap();
    let (response, out) = match page {
        PageContext::Body { http_response, mut renderer } => {
            let out = renderer.close(&store);
            (http_response, out)
        },
        PageContext::Header(_) => panic!("the body phase does not go back"),
    };
    assert!(response.headers.is_empty());
    assert!(out.contains("E<"));
    assert!(out.contains("http_header component can not be used"));
    assert!(out.ends_with(">S"));
}

#[test]
fn dynamic_string_expands_to_component_and_items() {
    let store = test_store();
    let header = HeaderContext::new(String::new());
    let page = header
        .handle_row(&store, obj(vec![("component", s("default"))]))
        .unwrap();
    let mut body = body_of(page);
    let dynamic_row = obj(vec![
        ("component", s("dynamic")),
        ("properties", s("[{\"component\":\"a\"},{\"x\":1},{\"x\":2}]")),
    ]);
    body.handle_row(&store, &dynamic_row).unwrap();
    let out = body.close(&store);
    assert_eq!(out, "S<D<>DA<(1)|(2)|>A>S");
}

#[test]
fn dynamic_without_properties_fails() {
    let store = test_store();
    let header = HeaderContext::new(String::new());
    let page = header
        .handle_row(&store, obj(vec![("component", s("default"))]))
        .unwrap();
    let mut body = body_of(page);
    assert!(body.handle_row(&store, &obj(vec![("component", s("dynamic"))])).is_err());
    assert!(
        body
            .handle_row(
                &store,
                &obj(vec![("component", s("dynamic")), ("properties", JsonVal::Bool(true))]),
            )
            .is_err()
    );
    assert!(
        body
            .handle_row(
                &store,
                &obj(vec![("component", s("dynamic")), ("properties", s("not json"))]),
            )
            .is_err()
    );
}

#[test]
fn recursion_guard_stops_unbounded_expansion() {
    let store = test_store();
    let header = HeaderContext::new(String::new());
    let page = header
        .handle_row(&store, obj(vec![("component", s("default"))]))
        .unwrap();
    let mut body = body_of(page);
    let mut row = obj(vec![("x", JsonVal::I64(1))]);
    for _ in 0..300 {
        row = obj(vec![("component", s("dynamic")), ("properties", JsonVal::Arr(vec![row]))]);
    }
    let err = body.handle_row(&store, &row).unwrap_err();
    let text = format!("{:?}", err);
    assert!(text.contains("Maximum recursion depth exceeded"));
    body.handle_error(&store, &err).unwrap();
    body.handle_row(&store, &obj(vec![("component", s("list"))])).unwrap();
    body.handle_row(&store, &obj(vec![("x", JsonVal::I64(3))])).unwrap();
    let out = body.close(&store);
    assert!(out.contains("E<"));
    assert!(out.contains("L<(3)|>L"));
    assert!(out.ends_with(">S"));
}

#[test]
fn bounded_dynamic_nesting_renders() {
    let store = test_store();
    let header = HeaderContext::new(String::new());
    let page = header
        .handle_row(&store, obj(vec![("component", s("default"))]))
        .unwrap();
    let mut body = body_of(page);
    let mut row = obj(vec![("x", JsonVal::I64(5))]);
    for _ in 0..10 {
        row = obj(vec![("component", s("dynamic")), ("properties", JsonVal::Arr(vec![row]))]);
    }
    body.handle_row(&store, &row).unwrap();
    let out = body.close(&store);
    assert_eq!(out, "S<D<d|>D>S");
}

#[test]
fn error_attributes_to_current_statement() {
    let store = test_store();
    let header = HeaderContext::new(String::new());
    let page = header
        .handle_row(&store, obj(vec![("component", s("default"))]))
        .unwrap();
    let mut body = body_of(page);
    body.finish_query().unwrap();
    let err = sqlpage::error::ErrorChain::new("boom".to_string());
    body.handle_error(&store, &err).unwrap();
    let out = body.close(&store);
    assert!(out.contains("[2:boom]"));
}

#[test]
fn unknown_component_becomes_inline_error() {
    let store = test_store();
    let header = HeaderContext::new(String::new());
    let page = header
        .handle_row(&store, obj(vec![("component", s("default"))]))
        .unwrap();
    let page = page.step(&store, obj(vec![("component", s("nope"))])).unwrap();
    let out = match page {
        PageContext::Body { mut renderer, .. } => renderer.close(&store),
        PageContext::Header(_) => panic!("expected the body phase"),
    };
    assert!(out.contains("E<"));
    assert!(out.contains("The component was not found"));
}

#[test]
fn missing_shell_template_fails_the_transition() {
    let mut store = TemplateStore::new(handlebars::Handlebars::new());
    store.add_template("default".to_string(), "D<", "d", ">D").unwrap();
    let header = HeaderContext::new(String::new());
    assert!(header.handle_row(&store, obj(vec![("component", s("default"))])).is_err());
}

#[test]
fn finish_from_header_phase_renders_an_empty_page() {
    let store = test_store();
    let page = PageContext::Header(HeaderContext::new(String::new()));
    let (response, out) = page.finish(&store).unwrap();
    assert_eq!(response.status, 200);
    assert_eq!(out, "S<D<>D>S");
}

#[test]
fn several_http_header_rows_accumulate() {
    let store = test_store();
    let header = HeaderContext::new(String::new());
    let page = header
        .handle_row(&store, obj(vec![("component", s("http_header")), ("A", s("1"))]))
        .unwrap();
    let header = match page {
        PageContext::Header(h) => h,
        PageContext::Body { .. } => panic!("still the header phase"),
    };
    let page = header
        .handle_row(&store, obj(vec![("component", s("http_header")), ("B", s("2"))]))
        .unwrap();
    let header = match page {
        PageContext::Header(h) => h,
        PageContext::Body { .. } => panic!("still the header phase"),
    };
    assert_eq!(
        header.response.headers,
        vec![("A".to_string(), "1".to_string()), ("B".to_string(), "2".to_string())],
    );
}

#[test]
fn dynamic_object_properties_expand_without_parsing() {
    let store = test_store();
    let header = HeaderContext::new(String::new());
    let page = header
        .handle_row(&store, obj(vec![("component", s("default"))]))
        .unwrap();
    let mut body = body_of(page);
    let dynamic_row = obj(vec![
        ("component", s("dynamic")),
        ("properties", obj(vec![("x", JsonVal::I64(4)), ("component", s("list"))])),
    ]);
    body.handle_row(&store, &dynamic_row).unwrap();
    let out = body.close(&store);
    assert_eq!(out, "S<D<>DL<>L>S");
}

#[test]
fn same_component_row_continues_the_instance() {
    let store = test_store();
    let header = HeaderContext::new(String::new());
    let page = header
        .handle_row(&store, obj(vec![("component", s("list"))]))
        .unwrap();
    let mut body = body_of(page);
    body.handle_row(&store, &obj(vec![("x", JsonVal::I64(1))])).unwrap();
    body.handle_row(&store, &obj(vec![("component", s("list")), ("x", JsonVal::I64(2))]))
        .unwrap();
    let out = body.close(&store);
    assert_eq!(out, "S<L<(1)|(2)|>L>S");
}

#[test]
fn same_component_row_after_error_reopens() {
    let store = test_store();
    let header = HeaderContext::new(String::new());
    let page = header
        .handle_row(&store, obj(vec![("component", s("list"))]))
        .unwrap();
    let mut body = body_of(page);
    body.handle_row(&store, &obj(vec![("x", JsonVal::I64(1))])).unwrap();
    let err = sqlpage::error::ErrorChain::new("boom".to_string());
    body.handle_error(&store, &err).unwrap();
    body.handle_row(&store, &obj(vec![("component", s("list")), ("x", JsonVal::I64(9))]))
        .unwrap();
    let out = body.close(&store);
    assert_eq!(out, "S<L<(1)|>LE<[1:boom]|>EL<>L>S");
}

#[test]
fn output_can_be_drained_between_rows() {
    let store = test_store();
    let header = HeaderContext::new(String::new());
    let page = header
        .handle_row(&store, obj(vec![("component", s("list"))]))
        .unwrap();
    let mut body = body_of(page);
    let mut streamed = String::new();
    streamed.push_str(&body.take_output());
    body.handle_row(&store, &obj(vec![("x", JsonVal::I64(1))])).unwrap();
    streamed.push_str(&body.take_output());
    assert_eq!(streamed, "S<L<(1)|");
    body.handle_row(&store, &obj(vec![("x", JsonVal::I64(2))])).unwrap();
    streamed.push_str(&body.take_output());
    streamed.push_str(&body.close(&store));
    assert_eq!(streamed, "S<L<(1)|(2)|>L>S");
}

#[test]
fn empty_dynamic_expansion_succeeds_and_renders_nothing() {
    let store = test_store();
    let header = HeaderContext::new(String::new());
    let page = header
        .handle_row(&store, obj(vec![("component", s("default"))]))
        .unwrap();
    let mut body = body_of(page);
    let empty_row = obj(vec![("component", s("dynamic")), ("properties", JsonVal::Arr(vec![]))]);
    body.handle_row(&store, &empty_row).unwrap();
    let out = body.close(&store);
    assert_eq!(out, "S<D<>D>S");
}
