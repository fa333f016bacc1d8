use fondu::{selector_nesting_ok, Page, Renderer, MAX_SELECTOR_NESTING};

fn setup_test_data(op: String) -> String {
    format!(
        "{{
            \"selectors\": [
                {{
                    \"selector\": \"#foo\",
                    \"op\":\"{}\",
                    \"components\": [
                        {{
                            \"_ref\": \"/components/foo\",
                            \"html\": \"<b>second</b>\"
                        }},
                        {{
                            \"_ref\": \"/components/bar\",
                            \"html\": \"<i>third</i>\"
                        }}
                    ]

                }}
            ]
        }}",
        op
    )
}

fn test_render(op: &str) -> String {
    let data = setup_test_data(String::from(op));
    let fondu_page = Page::from_json_str(&data).unwrap();
    let mut renderer = Renderer::new(fondu_page);
    let s = String::from("<div id='foo'>first</div>");
    let r = renderer.render(&s);
    match r {
        Ok(r) => r,
        Err(_) => String::from("error"),
    }
}

#[test]
fn test_render_replace() {
    let o = test_render("replace");
    println!("{}", o);
    assert_eq!(o, "<div id='foo'><b>second</b>\n<i>third</i></div>");
}

#[test]
fn test_render_append() {
    let o = test_render("append");
    println!("{}", o);
    assert_eq!(o, "<div id='foo'>first<b>second</b>\n<i>third</i></div>");
}

#[test]
fn test_render_prepend() {
    let o = test_render("prepend");
    println!("{}", o);
    assert_eq!(o, "<div id='foo'><b>second</b>\n<i>third</i>first</div>");
}

#[test]
fn test_render_before() {
    let o = test_render("before");
    println!("{}", o);
    assert_eq!(o, "<b>second</b>\n<i>third</i><div id='foo'>first</div>");
}

#[test]
fn test_render_after() {
    let o = test_render("after");
    println!("{}", o);
    assert_eq!(o, "<div id='foo'>first</div><b>second</b>\n<i>third</i>");
}

#[test]
fn test_parse_json() {
    let data = setup_test_data(String::from("replace"));
    let fondu_page = Page::from_json_str(&data);
    let fondu_page = match fondu_page {
        Ok(fondu_page) => fondu_page,
        Err(_) => {
            assert!(false);
            return;
        }
    };
    assert_eq!(1, fondu_page.selectors.len());
    assert_eq!(2, fondu_page.selectors[0].components.len());
    assert_eq!("/components/foo", fondu_page.selectors[0].components[0]._ref)
}

#[test]
fn test_parse_bad_json() {
    let data = r##"
        {
            "selectors": [{
        }
    "##;
    let fondu_page = Page::from_json_str(data);
    assert!(fondu_page.is_err())
}

#[test]
fn render_with_no_op_replaces() {
    let data = r##"{"selectors":[{"selector":"#foo","components":[{"_ref":"/c/1","html":"<b>x</b>"}]}]}"##;
    let mut r = Renderer::new(Page::from_json_str(data).unwrap());
    assert_eq!(r.render("<div id='foo'>first</div>").unwrap(), "<div id='foo'><b>x</b></div>");
}

#[test]
fn unmatched_elements_pass_through() {
    let data = r##"{"selectors":[{"selector":"#foo","op":"replace","components":[{"_ref":"/c/1","html":"<b>x</b>"}]}]}"##;
    let mut r = Renderer::new(Page::from_json_str(data).unwrap());
    let doc = "<p class=\"a\"  data-x='1'>keep</p><div id='foo'>first</div><span>also</span>";
    assert_eq!(
        r.render(doc).unwrap(),
        "<p class=\"a\"  data-x='1'>keep</p><div id='foo'><b>x</b></div><span>also</span>"
    );
}

#[test]
fn document_without_match_is_unchanged() {
    let data = r##"{"selectors":[{"selector":"#missing","op":"append","components":[{"_ref":"/c/1","html":"<b>x</b>"}]}]}"##;
    let mut r = Renderer::new(Page::from_json_str(data).unwrap());
    let doc = "<html><body><div id='foo'>first</div></body></html>";
    assert_eq!(r.render(doc).unwrap(), doc);
}

#[test]
fn invalid_selector_is_skipped() {
    let data = r##"{"selectors":[
        {"selector":"div[","op":"replace","components":[{"_ref":"/c/0","html":"<u>bad</u>"}]},
        {"selector":"#foo","op":"append","components":[{"_ref":"/c/1","html":"<b>x</b>"}]}]}"##;
    let mut r = Renderer::new(Page::from_json_str(data).unwrap());
    assert_eq!(r.render("<div id='foo'>first</div>").unwrap(), "<div id='foo'>first<b>x</b></div>");
}

#[test]
fn all_selectors_invalid_passes_through() {
    let data = r##"{"selectors":[{"selector":"div[","op":"replace","components":[{"_ref":"/c/0","html":"<u>bad</u>"}]}]}"##;
    let mut r = Renderer::new(Page::from_json_str(data).unwrap());
    assert_eq!(r.render("<div id='foo'>first</div>").unwrap(), "<div id='foo'>first</div>");
}

#[test]
fn overlapping_bindings_apply_in_manifest_order() {
    let data = r##"{"selectors":[
        {"selector":"#foo","op":"append","components":[{"_ref":"/c/1","html":"<b>a</b>"}]},
        {"selector":"div","op":"replace","components":[{"_ref":"/c/2","html":"<i>r</i>"}]}]}"##;
    let mut r = Renderer::new(Page::from_json_str(data).unwrap());
    assert_eq!(r.render("<div id='foo'>first</div>").unwrap(), "<div id='foo'><i>r</i></div>");
}

#[test]
fn every_match_receives_the_fragments() {
    let data = r##"{"selectors":[{"selector":"li","op":"prepend","components":[{"_ref":"/c/1","html":"*"}]}]}"##;
    let mut r = Renderer::new(Page::from_json_str(data).unwrap());
    assert_eq!(r.render("<ul><li>a</li><li>b</li></ul>").unwrap(), "<ul><li>*a</li><li>*b</li></ul>");
}

#[test]
fn keyed_lists_target_component_list_elements() {
    let data = r##"{"top":[{"_ref":"/c/1","html":"<b>t</b>"},{"_ref":"/c/2","html":"<i>u</i>"}],"title":"ignored"}"##;
    let page = Page::from_json_str(data).unwrap();
    assert_eq!(page.selectors.len(), 1);
    assert_eq!(page.selectors[0].name, "component-list[list=top]");
    let mut r = Renderer::new(page);
    assert_eq!(
        r.render("<component-list list=\"top\">old</component-list>").unwrap(),
        "<component-list list=\"top\"><b>t</b>\n<i>u</i></component-list>"
    );
}

fn nested_not(depth: usize) -> String {
    format!("div{}p{}", ":not(".repeat(depth), ")".repeat(depth))
}

#[test]
fn deeply_nested_selector_is_skipped() {
    let deep = nested_not(5000);
    let data = format!(
        r##"{{"selectors":[
        {{"selector":"{}","op":"replace","components":[{{"_ref":"/c/0","html":"<u>deep</u>"}}]}},
        {{"selector":"#foo","op":"append","components":[{{"_ref":"/c/1","html":"<b>x</b>"}}]}}]}}"##,
        deep
    );
    let mut r = Renderer::new(Page::from_json_str(&data).unwrap());
    assert_eq!(r.render("<div id='foo'>first</div>").unwrap(), "<div id='foo'>first<b>x</b></div>");
}

#[test]
fn selector_nesting_bound() {
    let limit = MAX_SELECTOR_NESTING as usize;
    assert!(selector_nesting_ok("#foo"));
    assert!(selector_nesting_ok("div:not(.a):not([x=y])"));
    assert!(selector_nesting_ok(&nested_not(limit)));
    assert!(!selector_nesting_ok(&nested_not(limit + 1)));
    assert!(!selector_nesting_ok(&nested_not(5000)));
    assert!(selector_nesting_ok(&"(a)".repeat(limit)));
    assert!(!selector_nesting_ok(&"[a]".repeat(limit + 1)));
}

#[test]
fn escaped_and_commented_brackets_count_as_opening() {
    // an escaped `)` or one inside a comment or string closes no block,
    // so every opening bracket counts, whatever follows it
    let escaped = format!("div{}", ":not(a\\)".repeat(100_000));
    assert!(!selector_nesting_ok(&escaped));
    let commented = format!("div{}", ":not(/*)*/".repeat(200));
    assert!(!selector_nesting_ok(&commented));
    let quoted = format!("div{}", ":not([x=\")\"]".repeat(200));
    assert!(!selector_nesting_ok(&quoted));
    assert!(selector_nesting_ok("div:not(/*)*/p)"));
    assert!(selector_nesting_ok("div:not(a\\))"));
}

#[test]
fn escaped_bracket_selector_is_skipped() {
    let escaped = ":not(a\\\\)".repeat(100_000);
    let data = format!(
        r##"{{"selectors":[
        {{"selector":"div{}","op":"replace","components":[{{"_ref":"/c/0","html":"<u>deep</u>"}}]}},
        {{"selector":"#foo","op":"append","components":[{{"_ref":"/c/1","html":"<b>x</b>"}}]}}]}}"##,
        escaped
    );
    let page = Page::from_json_str(&data).unwrap();
    assert!(page.selectors[0].name.starts_with("div:not(a\\):not(a\\)"));
    let mut r = Renderer::new(page);
    assert_eq!(r.render("<div id='foo'>first</div>").unwrap(), "<div id='foo'>first<b>x</b></div>");
}

#[test]
fn nested_selector_within_bound_is_applied() {
    let data = r##"{"selectors":[{"selector":"div:not(:not(#foo))","op":"after","components":[{"_ref":"/c/1","html":"<b>x</b>"}]}]}"##;
    let mut r = Renderer::new(Page::from_json_str(data).unwrap());
    assert_eq!(r.render("<div id='foo'>first</div>").unwrap(), "<div id='foo'>first</div><b>x</b>");
}
