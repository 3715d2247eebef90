use soup::prelude::{QueryBuilderExt, Soup};

const TEST_HTML_STRING: &'static str = "
<!doctype html>
<html>
  <head>
    <title>foo</title>
  </head>
  <body>
    <p>One</p>
    <p>Two</p>
  </body>
</html>
";

#[test]
fn find() {
    let soup = Soup::new(TEST_HTML_STRING);
    let result = soup.tag("p").find().expect("Couldn't find tag 'p'");
    assert_eq!(result.text(), "One".to_string());
}

#[test]
fn find_all() {
    let soup = Soup::new(TEST_HTML_STRING);
    let mut it = soup.tag("p").find_all();
    let mut result = Vec::new();
    while let Some(p) = it.next() {
        result.push(p.text());
    }
    assert_eq!(result, vec!["One".to_string(), "Two".to_string()]);
}

#[test]
fn name() {
    let soup = Soup::new("<b>some text</b>");
    let b = soup.tag("b").find().expect("Couldn't find tag 'b'");
    let name = b.name();
    assert_eq!(name, "b");
}

#[test]
fn get() {
    let soup = Soup::new(r#"<div class="one two"></div>"#);
    let div = soup.tag("div").find().expect("Couldn't find tag 'div'");
    let class = div.get("class");
    assert_eq!(class, Some("one two".to_string()));
}

#[test]
fn attrs() {
    let soup = Soup::new(r#"<div class="one two" id="some-id"></div>"#);
    let div = soup.tag("div").find().expect("Couldn't find tag 'div'");
    let attrs = div.attrs();
    assert_eq!(attrs.len(), 2);
    assert_eq!(attrs[0].name, "class".to_string());
    assert_eq!(attrs[0].value, "one two".to_string());
    assert_eq!(attrs[1].name, "id".to_string());
    assert_eq!(attrs[1].value, "some-id".to_string());
}

#[test]
fn case_sensitive() {
    let soup = Soup::new(r#"<div class="ONE TWO"></div>"#);
    let one = soup.attr("class", "ONE").find();
    assert!(one.is_some());
    let one = soup.attr("class", "one").find();
    assert!(one.is_none());
}

#[test]
fn display() {
    let soup = Soup::new(r#"<div class="foo bar" id="baz"></div>"#);
    let div = soup.tag("div").find().expect("Couldn't find tag 'div'");
    assert_eq!(div.display(), r#"<div class="foo bar" id="baz"></div>"#);

    let soup = Soup::new(r#"<div class="foo bar" id="baz"><b>SOME TEXT</b></div>"#);
    let div = soup.tag("div").find().expect("Couldn't find tag 'div'");
    assert_eq!(
        div.display(),
        r#"<div class="foo bar" id="baz"><b>SOME TEXT</b></div>"#
    );

    let soup = Soup::new(
        r#"<div class="foo bar" id="baz"><b>SOME TEXT <!-- and a comment --></b></div>"#,
    );
    let div = soup.tag("div").find().expect("Couldn't find tag 'div'");
    let b = div.tag("b").find().expect("Couldn't find tag 'b'");
    assert_eq!(b.display(), r#"<b>SOME TEXT <!-- and a comment --></b>"#);
}
