use soup::prelude::{NodeHandle, NodeIterator, Query, QueryBuilderExt, RegexPattern, Soup};

const THREE_SISTERS: &'static str = "
<html><head><title>The Dormouse's story</title></head>
<body>
<p class=\"title\"><b>The Dormouse's story</b></p>

<p class=\"story\">Once upon a time there were three little sisters; and their names were
<a href=\"http://example.com/elsie\" class=\"sister\" id=\"link1\">Elsie</a>,
<a href=\"http://example.com/lacie\" class=\"sister\" id=\"link2\">Lacie</a> and
<a href=\"http://example.com/tillie\" class=\"sister\" id=\"link3\">Tillie</a>;
and they lived at the bottom of a well.</p>

<p class=\"story\">...</p>
";

fn soup() -> Soup {
    Soup::new(THREE_SISTERS)
}

fn collect_all<T: Query, U: Query>(mut it: NodeIterator<T, U>) -> Vec<NodeHandle> {
    let mut out = Vec::new();
    while let Some(n) = it.next() {
        out.push(n);
    }
    out
}

#[test]
fn simple_nav() {
    let soup = soup();
    let title = soup.tag("title").find().expect("Couldn't find tag 'title'");
    assert_eq!(title.display(), "<title>The Dormouse's story</title>");
    assert_eq!(title.name(), "title");
    assert_eq!(title.text(), "The Dormouse's story".to_string());
    let p = soup.tag("p").find().expect("couldn't find tag 'p'");
    assert_eq!(
        p.display(),
        r#"<p class="title"><b>The Dormouse's story</b></p>"#
    );
    assert_eq!(p.get("class"), Some("title".to_string()));
    let a = soup.tag("a").find().expect("Couldn't find tag 'a'");
    assert_eq!(
        a.display(),
        r#"<a class="sister" href="http://example.com/elsie" id="link1">Elsie</a>"#
    );
    let a_s = collect_all(soup.tag("a").find_all());
    assert_eq!(
        a_s.iter()
            .map(|a| a.display())
            .collect::<Vec<_>>()
            .join("\n"),
        r#"<a class="sister" href="http://example.com/elsie" id="link1">Elsie</a>
<a class="sister" href="http://example.com/lacie" id="link2">Lacie</a>
<a class="sister" href="http://example.com/tillie" id="link3">Tillie</a>"#
    );
}

#[test]
fn extract_all_links() {
    let soup = soup();
    let expected = [
        "http://example.com/elsie",
        "http://example.com/lacie",
        "http://example.com/tillie",
    ];
    for (i, link) in collect_all(soup.tag("a").find_all()).iter().enumerate() {
        let href = link.get("href").expect("couldn't find link with an href");
        assert_eq!(href, expected[i].to_string());
    }
}

#[test]
fn extract_all_text_from_page() {
    let soup = soup();
    let text = soup.text();
    assert_eq!(
        text,
        r#"The Dormouse's story

The Dormouse's story

Once upon a time there were three little sisters; and their names were
Elsie,
Lacie and
Tillie;
and they lived at the bottom of a well.

...
"#
    );
}

#[test]
fn find_with_regex() {
    let soup = soup();
    let expected = ["body", "b"];
    let pattern = RegexPattern::new("^b").expect("Couldnt create regex '%^b'");
    for (i, tag) in collect_all(soup.tag(pattern).find_all()).iter().enumerate() {
        assert_eq!(tag.name(), expected[i].to_string());
    }
}

#[test]
fn recursive() {
    let soup = soup();
    assert_eq!(
        collect_all(soup.tag("title").recursive(false).find_all()).len(),
        0
    );
}

#[test]
fn attr_with_name() {
    let soup = soup();
    let with_id = collect_all(soup.attr_name("id").find_all());
    assert_eq!(
        with_id
            .iter()
            .map(|a| a.display())
            .collect::<Vec<_>>()
            .join("\n"),
        r#"<a class="sister" href="http://example.com/elsie" id="link1">Elsie</a>
<a class="sister" href="http://example.com/lacie" id="link2">Lacie</a>
<a class="sister" href="http://example.com/tillie" id="link3">Tillie</a>"#
    );
}

#[test]
fn multiple_value_attr() {
    let soup = Soup::new(r#"<div id="baz quux"><p class="foo bar">SOME TEXT</p></div>"#);
    let foo = soup
        .attr("class", "foo")
        .find()
        .expect("Couldn't find tag with class 'foo'");
    assert_eq!(foo.display(), r#"<p class="foo bar">SOME TEXT</p>"#.to_string());
    let bar = soup
        .attr("class", "bar")
        .find()
        .expect("Couldn't find tag with class 'bar'");
    assert_eq!(bar.display(), r#"<p class="foo bar">SOME TEXT</p>"#.to_string());
    // but a non-multiple-value attribute needs to match exactly
    let baz = soup.attr("id", "baz").find();
    assert!(baz.is_none());
}

#[test]
fn navigate_to_parent() {
    let soup = Soup::new(r#"<div id="foo"><b>FOO</b></div>"#);
    let b = soup.tag("b").find().expect("couldn't find tag 'b'");
    let div = b.parent().expect("Couldn't find parent of 'b'");
    assert_eq!(div.name(), "div".to_string());
}

#[test]
fn navigate_to_top_of_tree() {
    let soup = Soup::new(r#"<div id="foo"><b>FOO</b></div>"#);
    let b = soup.tag("b").find().expect("Couldn't find tag 'b'");
    let div = b.parent().expect("Couldn't find parent of tag 'b'");
    let body = div.parent().expect("Couldn't find parent of 'div'");
    let html = body.parent().expect("Couldn't find parent of 'body'");
    let document = html.parent().expect("Couldn't find parent of 'html'");
    assert!(document.parent().is_none());
}

#[test]
fn child_iterator() {
    let soup = Soup::new(
        "
    <ul>
        <li>ONE</li>
        <li>TWO</li>
        <li>THREE</li>
    </ul>
    ",
    );
    let ul = soup.tag("ul").find().expect("Couldn't get ul");
    let mut children = Vec::new();
    let mut it = ul.children();
    while let Some(child) = it.next() {
        if child.is_element() {
            children.push(child.text().to_string());
        }
    }
    assert_eq!(children.len(), 3);
    assert_eq!(
        children,
        vec!["ONE".to_string(), "TWO".to_string(), "THREE".to_string()]
    );
}

#[test]
fn parent_iterator() {
    let soup = Soup::new(
        "
    <html>
        <body>
            <div>
                <p>Some text <b>FOO</b></p>
                <ul>
                    <li><a href=\"foo\"><i>FOO</i></a></li>
                </ul>
            </div>
        </body>
    </html>
    ",
    );
    let i = soup.tag("i").find().expect("Couldn't find tag 'i'");
    let mut parents = Vec::new();
    let mut it = i.parents();
    while let Some(p) = it.next() {
        parents.push(p.name().to_string());
    }
    assert_eq!(
        parents,
        vec![
            "a".to_string(),
            "li".to_string(),
            "ul".to_string(),
            "div".to_string(),
            "body".to_string(),
            "html".to_string(),
            "[document]".to_string()
        ]
    );
}
