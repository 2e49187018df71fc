use freedom_network::fdom::FdomProcessor;
use freedom_network::fdom::lexer::{Lexer, Token};
use freedom_network::fdom::parser::{AstNode, Parser, Value};
use freedom_network::fdom::renderer::escape_html;

#[test]
fn test_simple_document() {
    let fdom = r#"
            @page {
                title = "Test",
                theme = "dark"
            }
            @header {
                @heading { "Welcome" }
            }
            @section {
                @paragraph { "This is a test." }
            }
        "#;

    let html = FdomProcessor::process(fdom);
    assert!(html.is_ok());
    let output = html.unwrap();
    assert!(output.contains("<title>Test</title>"));
    assert!(output.contains("Welcome"));
}

#[test]
fn test_with_links() {
    let fdom = r#"
            @page { title = "Links" }
            @section {
                @link { href = "page.fdom", text = "Next Page" }
            }
        "#;

    let html = FdomProcessor::process(fdom);
    assert!(html.is_ok());
    let output = html.unwrap();
    assert!(output.contains("href=\"page.fdom\""));
}

#[test]
fn test_basic_tokens() {
    let mut lexer = Lexer::new("@page { title = \"Hello\" }");
    let tokens = lexer.tokenize().unwrap();
    assert!(tokens.iter().any(|t| matches!(t, Token::Page)));
    assert!(tokens.iter().any(|t| matches!(t, Token::String(s) if s == "Hello")));
}

#[test]
fn test_numbers() {
    let mut lexer = Lexer::new("width = 800, opacity = 0.95");
    let tokens = lexer.tokenize().unwrap();
    assert!(tokens.iter().any(|t| matches!(t, Token::Number(n) if n == "800")));
    assert!(tokens.iter().any(|t| matches!(t, Token::Number(n) if n == "0.95")));
}

#[test]
fn test_parse_simple_page() {
    let input = r#"
            @page {
                title = "Test",
                author = "Anonymous"
            }
        "#;

    let mut lexer = Lexer::new(input);
    let tokens = lexer.tokenize().unwrap();
    let mut parser = Parser::new(tokens);
    let ast = parser.parse().unwrap();

    match ast {
        AstNode::Document { metadata, .. } => {
            let title = metadata.iter().find(|a| a.key == "title").map(|a| &a.value);
            assert_eq!(title, Some(&Value::String("Test".to_string())));
        },
        _ => panic!("Expected Document node"),
    }
}

#[test]
fn keywords_match_case_insensitively() {
    let mut lexer = Lexer::new("@PAGE { }");
    let tokens = lexer.tokenize().unwrap();
    assert!(tokens.iter().any(|t| matches!(t, Token::Page)));
}

#[test]
fn bad_number_is_rejected() {
    let mut lexer = Lexer::new("x = 1.2.3");
    assert!(lexer.tokenize().is_err());
}

#[test]
fn unterminated_string_is_rejected() {
    let mut lexer = Lexer::new("x = \"no end");
    assert!(lexer.tokenize().is_err());
}

#[test]
fn escaping_covers_html_metacharacters() {
    assert_eq!(escape_html("a<b>&\"c'"), "a&lt;b&gt;&amp;&quot;c&#39;");
}

#[test]
fn code_blocks_escape_their_contents() {
    let fdom = r#"
            @page { title = "C" }
            @code { "<script>" }
        "#;
    let output = FdomProcessor::process(fdom).unwrap();
    assert!(output.contains("<pre><code>&lt;script&gt;</code></pre>"));
}

#[test]
fn themes_pick_their_stylesheet() {
    let fdom = r#"
            @page { title = "L", theme = "light" }
        "#;
    let output = FdomProcessor::process(fdom).unwrap();
    assert!(output.contains("background: #ffffff"));

    let unknown = r#"
            @page { title = "D", theme = "bogus" }
        "#;
    let output = FdomProcessor::process(unknown).unwrap();
    assert!(output.contains("background: #1a1a1a"));
}

#[test]
fn numeric_attributes_become_pixels() {
    let fdom = r#"
            @page { title = "P" }
            @paragraph { padding = 12, "body" }
        "#;
    let output = FdomProcessor::process(fdom).unwrap();
    assert!(output.contains("style=\"padding: 12px;\""));
}
