use rnot::extract::{extract_content, ExtractError};

#[test]
fn selector_scoping_picks_only_the_matched_element() {
    let html = "<body><div id='x'>Hello</div><div id='y'>World</div></body>";
    let out = extract_content(html, Some("#x")).unwrap();
    assert_eq!(out, "Hello");
}

#[test]
fn absent_selector_defaults_to_page_body() {
    let html = "<body><div id='x'>Hello</div><div id='y'>World</div></body>";
    let out = extract_content(html, None).unwrap();
    assert_eq!(out, "Hello World");
}

#[test]
fn matched_elements_join_with_newlines_in_document_order() {
    let html = "<body><p class='k'>first</p><p>skip</p><p class='k'>second</p></body>";
    let out = extract_content(html, Some("p.k")).unwrap();
    assert_eq!(out, "first\nsecond");
}

#[test]
fn fragments_within_one_element_join_with_spaces() {
    let html = "<body><div id='x'>Hello <b>bold</b> world</div></body>";
    let out = extract_content(html, Some("#x")).unwrap();
    assert_eq!(out, "Hello bold world");
}

#[test]
fn no_match_yields_empty_string_not_error() {
    let html = "<body><p>text</p></body>";
    let out = extract_content(html, Some("#missing")).unwrap();
    assert_eq!(out, "");
}

#[test]
fn invalid_selector_is_rejected() {
    let html = "<body><p>text</p></body>";
    let err = extract_content(html, Some("###")).unwrap_err();
    assert_eq!(err, ExtractError::InvalidSelector);
}

#[test]
fn malformed_markup_degrades_gracefully() {
    let html = "<body><div>open but never closed <p>nested";
    let out = extract_content(html, None).unwrap();
    assert_eq!(out, "open but never closed nested");
}

#[test]
fn whitespace_only_text_nodes_are_dropped() {
    let html = "<body><div id='x'>  <span>  </span>real</div></body>";
    let out = extract_content(html, Some("#x")).unwrap();
    assert_eq!(out, "real");
}
