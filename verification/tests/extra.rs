use soup::prelude::{NodeHandle, NodeIterator, Query, QueryBuilderExt, RegexPattern, Soup};

fn names_of<T: Query, U: Query>(mut it: NodeIterator<T, U>) -> Vec<String> {
    let mut out = Vec::new();
    while let Some(n) = it.next() {
        out.push(n.name());
    }
    out
}

fn collect_all<T: Query, U: Query>(mut it: NodeIterator<T, U>) -> Vec<NodeHandle> {
    let mut out = Vec::new();
    while let Some(n) = it.next() {
        out.push(n);
    }
    out
}

#[test]
fn wildcard_matches_every_element() {
    let soup = Soup::new(r#"<body><p>some text, <b>Some bold text</b></p></body>"#);
    let results = names_of(soup.tag(true).find_all());
    assert_eq!(
        results,
        vec![
            "html".to_string(),
            "head".to_string(),
            "body".to_string(),
            "p".to_string(),
            "b".to_string()
        ]
    );
}

#[test]
fn false_pattern_matches_nothing() {
    let soup = Soup::new(r#"<body><p>some text, <b>Some bold text</b></p></body>"#);
    assert_eq!(collect_all(soup.tag(false).find_all()).len(), 0);
}

#[test]
fn no_predicates_yield_every_node_in_document_order() {
    let soup = Soup::new(r#"<div>A<b>B</b></div>"#);
    // document, html, head, body, div, text "A", b, text "B"
    let results = names_of(soup.recursive(true).find_all());
    assert_eq!(
        results,
        vec![
            "[document]".to_string(),
            "html".to_string(),
            "head".to_string(),
            "body".to_string(),
            "div".to_string(),
            "[text]".to_string(),
            "b".to_string(),
            "[text]".to_string()
        ]
    );
}

#[test]
fn limit_caps_results() {
    let soup = Soup::new(r#"<div id="one"></div><div id="two"></div><div id="three"></div>"#);
    let results = collect_all(soup.tag("div").limit(2).find_all());
    assert_eq!(results.len(), 2);
    assert_eq!(results[0].get("id"), Some("one".to_string()));
    assert_eq!(results[1].get("id"), Some("two".to_string()));
}

#[test]
fn same_query_twice_yields_identical_sequences() {
    let soup = Soup::new(r#"<ul><li>ONE</li><li>TWO</li><li>THREE</li></ul>"#);
    let first: Vec<String> = collect_all(soup.tag("li").find_all())
        .iter()
        .map(|n| n.text())
        .collect();
    let second: Vec<String> = collect_all(soup.tag("li").find_all())
        .iter()
        .map(|n| n.text())
        .collect();
    assert_eq!(first, second);
    assert_eq!(first.len(), 3);
}

#[test]
fn get_is_case_insensitive() {
    let soup = Soup::new(r#"<div id="below"></div>"#);
    let div = soup.tag("div").find().expect("Couldn't find tag 'div'");
    assert_eq!(div.get("ID"), Some("below".to_string()));
    assert_eq!(div.get("id"), Some("below".to_string()));
    assert_eq!(div.get("Id"), div.get("iD"));
    assert_eq!(div.get("missing"), None);
}

#[test]
fn invalid_regex_is_rejected() {
    assert!(RegexPattern::new("(").is_none());
    assert!(RegexPattern::new("^b").is_some());
}

#[test]
fn list_aware_rule_knows_its_pairs() {
    // `rel` is list-aware on `a` but not on `div`
    let soup = Soup::new(r#"<a rel="nofollow noopener">x</a><div rel="flip flop">y</div>"#);
    let hit = soup.tag("a").attr("rel", "noopener").find();
    assert!(hit.is_some());
    let miss = soup.tag("div").attr("rel", "flip").find();
    assert!(miss.is_none());
    let exact = soup.tag("div").attr("rel", "flip flop").find();
    assert!(exact.is_some());
}

#[test]
fn attr_value_wildcard_over_names() {
    let soup = Soup::new(r#"<div data-x="mark"></div><p id="other"></p>"#);
    let found = soup.attr_value("mark").find().expect("Couldn't find value 'mark'");
    assert_eq!(found.name(), "div");
    assert!(soup.attr_value("absent").find().is_none());
}

#[test]
fn variant_tests_and_sentinels() {
    let soup = Soup::new(r#"<p>text<!--note--></p>"#);
    let doc = soup.get_handle();
    assert!(doc.is_document());
    assert!(!doc.is_element());
    assert_eq!(doc.name(), "[document]");
    let p = soup.tag("p").find().expect("Couldn't find tag 'p'");
    assert!(p.is_element());
    let kids = collect_all_children(&p);
    assert_eq!(kids.len(), 2);
    assert!(kids[0].is_text());
    assert_eq!(kids[0].name(), "[text]");
    assert!(kids[1].is_comment());
    assert_eq!(kids[1].name(), "[comment]");
    assert_eq!(kids[1].display(), "<!--note-->");
}

fn collect_all_children(n: &NodeHandle) -> Vec<NodeHandle> {
    let mut out = Vec::new();
    let mut it = n.children();
    while let Some(c) = it.next() {
        out.push(c);
    }
    out
}

#[test]
fn empty_token_matches_between_consecutive_whitespace() {
    // splitting "a  b" on whitespace yields an empty part between the two
    // blanks, which an empty pattern can match
    let soup = Soup::new(r#"<div class="a  b"></div>"#);
    assert!(soup.attr("class", "").find().is_some());
    let soup2 = Soup::new(r#"<div class="a b"></div>"#);
    assert!(soup2.attr("class", "").find().is_none());
}

#[test]
fn chained_predicates_conjoin() {
    let soup = Soup::new(r#"<b class="x">one</b><i class="x">two</i><b class="y">three</b>"#);
    let hit = soup
        .tag("b")
        .class("x")
        .find()
        .expect("Couldn't find tag 'b' with class 'x'");
    assert_eq!(hit.text(), "one");
    let all = collect_all(soup.tag("b").class("x").find_all());
    assert_eq!(all.len(), 1);
}

#[test]
fn nested_queries_stay_in_subtree() {
    let soup = Soup::new(r#"<div><span>in</span></div><span>out</span>"#);
    let div = soup.tag("div").find().expect("Couldn't find tag 'div'");
    let spans = collect_all(div.tag("span").find_all());
    assert_eq!(spans.len(), 1);
    assert_eq!(spans[0].text(), "in");
}

#[test]
fn child_iterator_len() {
    let soup = Soup::new(r#"<ul><li>1</li><li>2</li></ul>"#);
    let ul = soup.tag("ul").find().expect("Couldn't find tag 'ul'");
    assert_eq!(ul.children().len(), 2);
}
