use webserver::templating::ast::escape_html;
use webserver::templating::{
    MustacheLikeLexer, MustacheLikeNode, MustacheLikeParser, MustacheLikeToken,
};

#[test]
fn consume_until() {
    let mut lexer = MustacheLikeLexer::new("012{{".to_owned());
    assert_eq!(lexer.consume_until("{{"), "012");
    assert_eq!(lexer.index(), 3);
}

#[test]
fn lexer() {
    let lexer = MustacheLikeLexer::new("Input {{test}} more text".to_owned());
    assert_eq!(
        lexer.run().unwrap(),
        vec!(
            MustacheLikeToken::Text(String::from("Input ")),
            MustacheLikeToken::Name(String::from("test"), true),
            MustacheLikeToken::Text(String::from(" more text"))
        )
    );
}

#[test]
fn lexer_tags() {
    let lexer =
        MustacheLikeLexer::new("Shown.\n{{#person}}\n  Never shown!\n{{/person}}".to_owned());
    assert_eq!(
        lexer.run().unwrap(),
        vec!(
            MustacheLikeToken::Text(String::from("Shown.\n")),
            MustacheLikeToken::OpenTag(String::from("person"), false),
            MustacheLikeToken::Text(String::from("\n  Never shown!\n")),
            MustacheLikeToken::CloseTag(String::from("person")),
        )
    )
}

#[test]
fn lexer_tag_kinds() {
    let lexer =
        MustacheLikeLexer::new("{{&raw}}{{>part}}{{^inv}}{{/inv}}".to_owned());
    assert_eq!(
        lexer.run().unwrap(),
        vec!(
            MustacheLikeToken::Name(String::from("raw"), false),
            MustacheLikeToken::Partial(String::from("part")),
            MustacheLikeToken::OpenTag(String::from("inv"), true),
            MustacheLikeToken::CloseTag(String::from("inv")),
        )
    )
}

#[test]
fn lexer_unclosed_tag_is_error() {
    let lexer = MustacheLikeLexer::new("text {{name".to_owned());
    assert!(lexer.run().is_err());
}

#[test]
fn lexer_empty_tag_is_error() {
    let lexer = MustacheLikeLexer::new("text {{ }} more".to_owned());
    assert!(lexer.run().is_err());
}

#[test]
fn parser() {
    let tokens = vec![
        MustacheLikeToken::Text(String::from("Input ")),
        MustacheLikeToken::Name(String::from("test"), false),
        MustacheLikeToken::Text(String::from(" more text")),
    ];
    let mut parser = MustacheLikeParser::new(tokens);
    let nodes = parser.parse().unwrap();
    let expected_nodes = vec![
        MustacheLikeNode::Text(String::from("Input ")),
        MustacheLikeNode::Variable(String::from("test"), false),
        MustacheLikeNode::Text(String::from(" more text")),
    ];
    assert_eq!(nodes, expected_nodes);
}

#[test]
fn parser_tree() {
    let tokens = vec![
        MustacheLikeToken::Text(String::from("Shown.\n")),
        MustacheLikeToken::OpenTag(String::from("person"), false),
        MustacheLikeToken::Text(String::from("\n  Never shown!\n")),
        MustacheLikeToken::CloseTag(String::from("person")),
    ];
    let nodes = MustacheLikeParser::new(tokens).parse().unwrap();
    assert_eq!(
        nodes,
        vec![
            MustacheLikeNode::Text(String::from("Shown.\n")),
            MustacheLikeNode::Section(
                String::from("person"),
                vec![MustacheLikeNode::Text(String::from("\n  Never shown!\n",))],
                false
            ),
        ],
    );
}

#[test]
fn parser_unexpected_close_tag_is_error() {
    let tokens = vec![MustacheLikeToken::CloseTag(String::from("person"))];
    assert!(MustacheLikeParser::new(tokens).parse().is_err());
}

#[test]
fn parser_missing_close_tag_is_error() {
    let tokens = vec![
        MustacheLikeToken::OpenTag(String::from("person"), false),
        MustacheLikeToken::Text(String::from("inside")),
    ];
    assert!(MustacheLikeParser::new(tokens).parse().is_err());
}

#[test]
fn escape_html_entities() {
    assert_eq!(
        escape_html("Colors <h1 class=\"test\" id='test'>Test & roll \\lol `lal`</h1>"),
        "Colors &lt;h1 class=&quot;test&quot; id=&#39;test&#39;&gt;Test &amp; roll \\lol `lal`&lt;&#x2F;h1&gt;"
    );
}

#[test]
fn escape_html_leaves_plain_text() {
    assert_eq!(escape_html("plain text 123"), "plain text 123");
}
