//! Renderer of the overlay markup language: turns a document tree into
//! HTML, exactly as the specification functions state it, tag by tag.

use crate::fdom::parser::{AstNode, Attribute, Value};
use crate::textutil::{dec_chars, lower_of, lowercase, str_eq, string_to_chars, u64_to_string};
use vstd::prelude::*;
use vstd::string::StrSliceExecFns;
use vstd::string::StringExecFns;

verus! {

/// How one character is HTML-escaped.
pub open spec fn esc_char(c: char) -> Seq<char> {
    if c == '&' {
        "&amp;"@
    } else if c == '<' {
        "&lt;"@
    } else if c == '>' {
        "&gt;"@
    } else if c == '"' {
        "&quot;"@
    } else if c == '\'' {
        "&#39;"@
    } else {
        seq![c]
    }
}

/// A text HTML-escaped: ampersands, angle brackets and quotes expanded.
pub open spec fn spec_escape_html(s: Seq<char>) -> Seq<char>
    decreases s.len(),
{
    if s.len() == 0 {
        seq![]
    } else {
        esc_char(s.first()) + spec_escape_html(s.drop_first())
    }
}

proof fn lemma_escape_push(s: Seq<char>, c: char)
    ensures
        spec_escape_html(s.push(c)) == spec_escape_html(s) + esc_char(c),
    decreases s.len(),
{
    if s.len() == 0 {
        assert(s.push(c).drop_first() =~= Seq::<char>::empty());
        assert(s.push(c).first() == c);
        assert(spec_escape_html(Seq::<char>::empty()) == Seq::<char>::empty());
        assert(spec_escape_html(s.push(c)) =~= esc_char(c));
        assert(spec_escape_html(s) + esc_char(c) =~= esc_char(c));
    } else {
        lemma_escape_push(s.drop_first(), c);
        assert(s.push(c).drop_first() =~= s.drop_first().push(c));
        assert(s.push(c).first() == s.first());
        assert(spec_escape_html(s.push(c)) =~= spec_escape_html(s) + esc_char(c));
    }
}

/// The first attribute under a key, if any.
pub open spec fn attr_lookup(attrs: Seq<Attribute>, key: Seq<char>) -> Option<Value>
    decreases attrs.len(),
{
    if attrs.len() == 0 {
        None
    } else if attrs.first().key@ == key {
        Some(attrs.first().value)
    } else {
        attr_lookup(attrs.drop_first(), key)
    }
}

/// The string attribute under a key, or a default.
pub open spec fn spec_string_attr(attrs: Seq<Attribute>, key: Seq<char>, default: Seq<char>) -> Seq<
    char,
> {
    match attr_lookup(attrs, key) {
        Some(v) => match v {
            Value::String(s) => s@,
            _ => default,
        },
        None => default,
    }
}

/// The numeric lexeme under a key, if the attribute is a number.
pub open spec fn spec_number_attr(attrs: Seq<Attribute>, key: Seq<char>) -> Option<Seq<char>> {
    match attr_lookup(attrs, key) {
        Some(v) => match v {
            Value::Number(n) => Some(n@),
            _ => None,
        },
        None => None,
    }
}

/// Length of the leading run of decimal digits.
pub open spec fn digit_run(s: Seq<char>) -> int
    decreases s.len(),
{
    if s.len() == 0 || !crate::fdom::lexer::is_ascii_digit(s.first()) {
        0
    } else {
        1 + digit_run(s.drop_first())
    }
}

/// The value of a digit string, most significant first.
pub open spec fn digits_val(s: Seq<char>) -> int
    decreases s.len(),
{
    if s.len() == 0 {
        0
    } else {
        digits_val(s.drop_last()) * 10 + (s.last() as u32 - 48)
    }
}

/// A numeric lexeme read as a pixel count: a negative number is zero, and
/// the value is the leading digits, clamped to the unsigned 32-bit range.
pub open spec fn spec_lexeme_u32(s: Seq<char>) -> int {
    if s.len() > 0 && s[0] == '-' {
        0
    } else {
        let v = digits_val(s.take(digit_run(s)));
        if v > u32::MAX {
            u32::MAX as int
        } else {
            v
        }
    }
}

proof fn lemma_digits_val_nonneg(s: Seq<char>)
    requires
        forall|i: int| 0 <= i < s.len() ==> crate::fdom::lexer::is_ascii_digit(#[trigger] s[i]),
    ensures
        digits_val(s) >= 0,
    decreases s.len(),
{
    if s.len() > 0 {
        lemma_digits_val_nonneg(s.drop_last());
    }
}

/// Read a numeric lexeme as a pixel count.
fn lexeme_u32(s: &str) -> (r: u32)
    ensures
        r == spec_lexeme_u32(s@),
{
    let chars = string_to_chars(s);
    if chars.len() > 0 && chars[0] == '-' {
        return 0;
    }
    let mut i: usize = 0;
    let mut acc: u32 = 0;
    let mut sat = false;
    proof {
        assert(chars@.skip(0) =~= chars@);
        assert(chars@.take(0) =~= Seq::<char>::empty());
    }
    loop
        invariant_except_break
            i <= chars@.len(),
            chars@ == s@,
            !(chars@.len() > 0 && chars@[0] == '-'),
            forall|j: int|
                0 <= j < i ==> crate::fdom::lexer::is_ascii_digit(#[trigger] chars@[j]),
            digit_run(chars@) == i + digit_run(chars@.skip(i as int)),
            !sat ==> acc == digits_val(chars@.take(i as int)) && acc <= u32::MAX,
            sat ==> digits_val(chars@.take(i as int)) > u32::MAX && acc == u32::MAX,
        ensures
            chars@ == s@,
            !(chars@.len() > 0 && chars@[0] == '-'),
            i == digit_run(chars@),
            !sat ==> acc == digits_val(chars@.take(i as int)) && acc <= u32::MAX,
            sat ==> digits_val(chars@.take(i as int)) > u32::MAX && acc == u32::MAX,
        decreases chars@.len() - i,
    {
        if i >= chars.len() {
            proof {
                assert(chars@.skip(i as int).len() == 0);
                assert(digit_run(chars@.skip(i as int)) == 0);
            }
            break;
        }
        let c = chars[i];
        let u = c as u32;
        proof {
            assert(chars@.skip(i as int).first() == chars@[i as int]);
            assert(chars@.skip(i as int).drop_first() =~= chars@.skip(i + 1));
        }
        if !(48 <= u && u <= 57) {
            proof {
                assert(digit_run(chars@.skip(i as int)) == 0);
            }
            break;
        }
        let d: u32 = u - 48;
        let ghost prev = digits_val(chars@.take(i as int));
        proof {
            assert(chars@.take(i + 1).drop_last() =~= chars@.take(i as int));
            assert(chars@.take(i + 1).last() == chars@[i as int]);
            assert(digits_val(chars@.take(i + 1)) == prev * 10 + d);
            assert forall|j: int|
                0 <= j < i + 1 implies crate::fdom::lexer::is_ascii_digit(
                #[trigger] chars@[j],
            ) by {}
            assert forall|j: int|
                0 <= j < chars@.take(i as int).len() implies crate::fdom::lexer::is_ascii_digit(
                #[trigger] chars@.take(i as int)[j],
            ) by {
                assert(chars@.take(i as int)[j] == chars@[j]);
            }
            lemma_digits_val_nonneg(chars@.take(i as int));
        }
        if sat {
            proof {
                assert(prev * 10 + d > u32::MAX) by (nonlinear_arith)
                    requires
                        prev > u32::MAX,
                        d >= 0,
                ;
            }
        } else {
            if acc > (u32::MAX - d) / 10 {
                proof {
                    assert(prev * 10 + d > u32::MAX) by (nonlinear_arith)
                        requires
                            prev == acc,
                            acc > (u32::MAX - d) / 10,
                            0 <= d <= 9,
                            acc >= 0,
                    ;
                }
                acc = u32::MAX;
                sat = true;
            } else {
                proof {
                    assert(acc * 10 + d <= u32::MAX) by (nonlinear_arith)
                        requires
                            acc <= (u32::MAX - d) / 10,
                            0 <= d <= 9,
                            acc >= 0,
                    ;
                }
                acc = acc * 10 + d;
            }
        }
        i = i + 1;
    }
    proof {
        assert(chars@.take(digit_run(chars@)) == s@.take(digit_run(s@)));
    }
    acc
}

/// The first attribute under a key, if any.
fn find_attr<'a>(attrs: &'a Vec<Attribute>, key: &str) -> (r: Option<&'a Value>)
    ensures
        match r {
            Some(v) => attr_lookup(attrs@, key@) == Some(*v),
            None => attr_lookup(attrs@, key@) is None,
        },
{
    let mut i: usize = 0;
    proof {
        assert(attrs@.skip(0) =~= attrs@);
    }
    while i < attrs.len()
        invariant
            i <= attrs@.len(),
            attr_lookup(attrs@, key@) == attr_lookup(attrs@.skip(i as int), key@),
        decreases attrs@.len() - i,
    {
        proof {
            assert(attrs@.skip(i as int).first() == attrs@[i as int]);
            assert(attrs@.skip(i as int).drop_first() =~= attrs@.skip(i + 1));
        }
        if str_eq(attrs[i].key.as_str(), key) {
            return Some(&attrs[i].value);
        }
        i = i + 1;
    }
    proof {
        assert(attrs@.skip(attrs@.len() as int).len() == 0);
    }
    None
}

/// The string attribute under a key, or a default.
fn string_attr(attrs: &Vec<Attribute>, key: &str, default: &str) -> (r: String)
    ensures
        r@ == spec_string_attr(attrs@, key@, default@),
{
    match find_attr(attrs, key) {
        Some(v) => match v {
            Value::String(s) => s.clone(),
            _ => default.to_owned(),
        },
        None => default.to_owned(),
    }
}

/// The numeric lexeme under a key, if the attribute is a number.
fn number_attr(attrs: &Vec<Attribute>, key: &str) -> (r: Option<String>)
    ensures
        match r {
            Some(s) => spec_number_attr(attrs@, key@) == Some(s@),
            None => spec_number_attr(attrs@, key@) is None,
        },
{
    match find_attr(attrs, key) {
        Some(v) => match v {
            Value::Number(n) => Some(n.clone()),
            _ => None,
        },
        None => None,
    }
}

/// One "name: value;" piece of an inline style, from a string attribute.
pub open spec fn style_piece_str(
    attrs: Seq<Attribute>,
    key: Seq<char>,
    prefix: Seq<char>,
) -> Seq<char> {
    match attr_lookup(attrs, key) {
        Some(v) => match v {
            Value::String(s) => prefix + s@ + ";"@,
            _ => seq![],
        },
        None => seq![],
    }
}

/// One "name: valuepx;" piece of an inline style, from a number attribute.
pub open spec fn style_piece_num(
    attrs: Seq<Attribute>,
    key: Seq<char>,
    prefix: Seq<char>,
) -> Seq<char> {
    match spec_number_attr(attrs, key) {
        Some(n) => prefix + dec_chars(spec_lexeme_u32(n) as nat) + "px;"@,
        None => seq![],
    }
}

/// The inline style of an element, from its style attributes in a fixed
/// order.
pub open spec fn spec_build_style(attrs: Seq<Attribute>) -> Seq<char> {
    style_piece_str(attrs, "color"@, "color: "@) + style_piece_str(
        attrs,
        "background"@,
        "background: "@,
    ) + style_piece_num(attrs, "padding"@, "padding: "@) + style_piece_num(
        attrs,
        "margin"@,
        "margin: "@,
    ) + style_piece_str(attrs, "border"@, "border: "@) + style_piece_str(
        attrs,
        "align"@,
        "text-align: "@,
    ) + style_piece_num(attrs, "font-size"@, "font-size: "@) + style_piece_str(
        attrs,
        "font-weight"@,
        "font-weight: "@,
    )
}

/// The stylesheet of the light theme.
pub open spec fn light_css() -> Seq<char> {
    "\n                    body { \n                        font-family: -apple-system, BlinkMacSystemFont, 'Segoe UI', Roboto;\n                        background: #ffffff; \n                        color: #000000;\n                        margin: 0;\n                        padding: 20px;\n                    }\n                    h1, h2, h3, h4, h5, h6 { color: #333; margin-top: 1.5em; }\n                    a { color: #0066cc; text-decoration: none; }\n                    a:hover { text-decoration: underline; }\n                    code, pre { background: #f0f0f0; padding: 10px; border-radius: 4px; }\n                    blockquote { border-left: 4px solid #ccc; padding-left: 20px; }\n                "@
}

/// The stylesheet of the dark theme, also the fallback.
pub open spec fn dark_css() -> Seq<char> {
    "\n                    body { \n                        font-family: -apple-system, BlinkMacSystemFont, 'Segoe UI', Roboto;\n                        background: #1a1a1a; \n                        color: #e0e0e0;\n                        margin: 0;\n                        padding: 20px;\n                    }\n                    h1, h2, h3, h4, h5, h6 { color: #ffffff; margin-top: 1.5em; }\n                    a { color: #4a9eff; text-decoration: none; }\n                    a:hover { text-decoration: underline; }\n                    code, pre { background: #2a2a2a; padding: 10px; border-radius: 4px; color: #4a9eff; }\n                    blockquote { border-left: 4px solid #4a9eff; padding-left: 20px; color: #b0b0b0; }\n                "@
}

/// The stylesheet of the high-contrast theme.
pub open spec fn high_contrast_css() -> Seq<char> {
    "\n                    body { \n                        font-family: Arial, sans-serif;\n                        background: #000000; \n                        color: #ffffff;\n                        margin: 0;\n                        padding: 20px;\n                    }\n                    h1, h2, h3, h4, h5, h6 { color: #ffff00; }\n                    a { color: #00ff00; text-decoration: underline; }\n                    strong, em { font-weight: bold; }\n                "@
}

/// The stylesheet a theme name selects, case-insensitively; an unknown
/// name falls back to the dark theme.
pub open spec fn spec_theme_css(theme: Seq<char>) -> Seq<char> {
    if lower_of(theme) == "light"@ {
        light_css()
    } else if lower_of(theme) == "dark"@ {
        dark_css()
    } else if lower_of(theme) == "high-contrast"@ {
        high_contrast_css()
    } else {
        dark_css()
    }
}

/// The HTML of the children of a node, up to index `i`, in order.
pub open spec fn spec_render_nodes(nodes: Seq<AstNode>, i: int) -> Seq<char>
    decreases nodes, 0int, i,
{
    if i <= 0 || i > nodes.len() {
        seq![]
    } else {
        spec_render_nodes(nodes, i - 1) + spec_render(nodes[i - 1])
    }
}

/// The HTML of the children, each escaped, up to index `i`.
pub open spec fn spec_render_nodes_escaped(nodes: Seq<AstNode>, i: int) -> Seq<char>
    decreases nodes, 0int, i,
{
    if i <= 0 || i > nodes.len() {
        seq![]
    } else {
        spec_render_nodes_escaped(nodes, i - 1) + spec_escape_html(spec_render(nodes[i - 1]))
    }
}

/// The HTML of the children as list items, up to index `i`.
pub open spec fn spec_render_list_items(nodes: Seq<AstNode>, i: int) -> Seq<char>
    decreases nodes, 0int, i,
{
    if i <= 0 || i > nodes.len() {
        seq![]
    } else {
        spec_render_list_items(nodes, i - 1) + "<li>"@ + spec_render(nodes[i - 1]) + "</li>\n"@
    }
}

/// A " style=\"...\"" fragment, empty when the style is.
pub open spec fn style_fragment(style: Seq<char>) -> Seq<char> {
    if style.len() > 0 {
        " style=\""@ + style + "\""@
    } else {
        seq![]
    }
}

/// The HTML of a whole document: head with escaped title and theme
/// stylesheet, then the rendered children.
pub open spec fn spec_render_document(metadata: Seq<Attribute>, children: Seq<AstNode>) -> Seq<char>
    decreases children, 1int, 0int,
{
    let title = spec_string_attr(metadata, "title"@, "Document"@);
    let theme = spec_string_attr(metadata, "theme"@, "dark"@);
    "<!DOCTYPE html>\n<html>\n<head>\n<title>"@ + spec_escape_html(title) + "</title>\n"@
        + "<meta charset=\"utf-8\">\n<meta name=\"viewport\" content=\"width=device-width, initial-scale=1.0\">\n<style>\n"@
        + spec_theme_css(theme) + "</style>\n</head>\n<body>\n"@ + spec_render_nodes(
        children,
        children.len() as int,
    ) + "</body>\n</html>"@
}

/// The HTML of one element, by its (case-insensitively matched) tag.
pub open spec fn spec_render_element(
    tag: Seq<char>,
    attrs: Seq<Attribute>,
    children: Seq<AstNode>,
) -> Seq<char>
    decreases children, 1int, 0int,
{
    let low = lower_of(tag);
    let inner = spec_render_nodes(children, children.len() as int);
    let style = spec_build_style(attrs);
    if low == "page"@ {
        inner
    } else if low == "header"@ {
        "<header class=\"fdom-header\">\n"@ + inner + "</header>\n"@
    } else if low == "section"@ {
        "<section class=\"fdom-section\">\n"@ + inner + "</section>\n"@
    } else if low == "footer"@ {
        "<footer class=\"fdom-footer\">\n"@ + inner + "</footer>\n"@
    } else if low == "aside"@ {
        "<aside class=\"fdom-aside\">\n"@ + inner + "</aside>\n"@
    } else if low == "heading"@ || low == "h1"@ || low == "h2"@ || low == "h3"@ || low == "h4"@
        || low == "h5"@ || low == "h6"@ {
        let level = if tag == "heading"@ {
            "h2"@
        } else {
            tag
        };
        "<"@ + level + style_fragment(style) + ">"@ + inner + "</"@ + level + ">\\n"@
    } else if low == "paragraph"@ {
        "<p"@ + style_fragment(style) + ">"@ + inner + "</p>\n"@
    } else if low == "text"@ {
        inner
    } else if low == "strong"@ {
        "<strong>"@ + inner + "</strong>"@
    } else if low == "emphasis"@ {
        "<em>"@ + inner + "</em>"@
    } else if low == "link"@ {
        let href = spec_string_attr(attrs, "href"@, "#"@);
        let text = spec_string_attr(attrs, "text"@, "Link"@);
        let title = spec_string_attr(attrs, "title"@, ""@);
        "<a href=\""@ + spec_escape_html(href) + "\" title=\""@ + spec_escape_html(title) + "\">"@
            + spec_escape_html(text) + "</a>"@
    } else if low == "image"@ {
        let src = spec_string_attr(attrs, "src"@, ""@);
        let alt = spec_string_attr(attrs, "alt"@, ""@);
        let width = match spec_number_attr(attrs, "width"@) {
            Some(n) => " width=\""@ + dec_chars(spec_lexeme_u32(n) as nat) + "\""@,
            None => seq![],
        };
        let height = match spec_number_attr(attrs, "height"@) {
            Some(n) => " height=\""@ + dec_chars(spec_lexeme_u32(n) as nat) + "\""@,
            None => seq![],
        };
        "<img src=\""@ + spec_escape_html(src) + "\" alt=\""@ + spec_escape_html(alt) + "\""@
            + width + height + " />\n"@
    } else if low == "code"@ {
        "<pre><code>"@ + spec_render_nodes_escaped(children, children.len() as int)
            + "</code></pre>\n"@
    } else if low == "list"@ {
        "<ul>\n"@ + spec_render_list_items(children, children.len() as int) + "</ul>\n"@
    } else if low == "ordered"@ {
        "<ol>\n"@ + spec_render_list_items(children, children.len() as int) + "</ol>\n"@
    } else if low == "nav"@ {
        "<nav class=\"fdom-nav\">\n"@ + inner + "</nav>\n"@
    } else if low == "quote"@ {
        "<blockquote>"@ + inner + "</blockquote>\n"@
    } else if low == "box"@ || low == "div"@ {
        let class = spec_string_attr(attrs, "class"@, ""@);
        let class_frag = if class.len() > 0 {
            " class=\""@ + class + "\""@
        } else {
            Seq::<char>::empty()
        };
        "<div"@ + class_frag + style_fragment(style) + ">\n"@ + inner + "</div>\n"@
    } else if low == "table"@ {
        "<table class=\"fdom-table\">\n"@ + inner + "</table>\n"@
    } else if low == "row"@ {
        "<tr>\n"@ + inner + "</tr>\n"@
    } else if low == "cell"@ {
        "<td>"@ + inner + "</td>"@
    } else if low == "comment"@ {
        seq![]
    } else {
        "<"@ + tag + style_fragment(style) + ">\n"@ + inner + "</"@ + tag + ">\\n"@
    }
}

/// The HTML of a node: a document with head and body, an element by its
/// tag, or bare text.
pub open spec fn spec_render(node: AstNode) -> Seq<char>
    decreases node, 2int, 0int,
{
    match node {
        AstNode::Document { metadata, children } => spec_render_document(metadata@, children@),
        AstNode::Element { tag, attributes, children } => spec_render_element(
            tag@,
            attributes@,
            children@,
        ),
        AstNode::Text(t) => t@,
    }
}

/// Renders document trees to HTML.
pub struct Renderer;

/// HTML-escape a text.
pub fn escape_html(text: &str) -> (r: String)
    ensures
        r@ == spec_escape_html(text@),
{
    let chars = string_to_chars(text);
    let mut out: Vec<char> = Vec::new();
    let mut i: usize = 0;
    while i < chars.len()
        invariant
            i <= chars@.len(),
            chars@ == text@,
            out@ == spec_escape_html(chars@.take(i as int)),
        decreases chars@.len() - i,
    {
        let c = chars[i];
        proof {
            lemma_escape_push(chars@.take(i as int), c);
            assert(chars@.take(i + 1) =~= chars@.take(i as int).push(c));
        }
        if c == '&' {
            let mut piece = string_to_chars("&amp;");
            out.append(&mut piece);
        } else if c == '<' {
            let mut piece = string_to_chars("&lt;");
            out.append(&mut piece);
        } else if c == '>' {
            let mut piece = string_to_chars("&gt;");
            out.append(&mut piece);
        } else if c == '"' {
            let mut piece = string_to_chars("&quot;");
            out.append(&mut piece);
        } else if c == '\'' {
            let mut piece = string_to_chars("&#39;");
            out.append(&mut piece);
        } else {
            out.push(c);
        }
        proof {
            assert(out@ =~= spec_escape_html(chars@.take(i + 1)));
        }
        i = i + 1;
    }
    proof {
        assert(chars@.take(chars@.len() as int) =~= chars@);
    }
    crate::textutil::chars_to_string(&out)
}

/// The stylesheet a theme name selects.
pub fn get_theme_css(theme: &str) -> (r: String)
    ensures
        r@ == spec_theme_css(theme@),
{
    let low = lowercase(theme);
    if str_eq(low.as_str(), "light") {
        String::from_str(
            "\n                    body { \n                        font-family: -apple-system, BlinkMacSystemFont, 'Segoe UI', Roboto;\n                        background: #ffffff; \n                        color: #000000;\n                        margin: 0;\n                        padding: 20px;\n                    }\n                    h1, h2, h3, h4, h5, h6 { color: #333; margin-top: 1.5em; }\n                    a { color: #0066cc; text-decoration: none; }\n                    a:hover { text-decoration: underline; }\n                    code, pre { background: #f0f0f0; padding: 10px; border-radius: 4px; }\n                    blockquote { border-left: 4px solid #ccc; padding-left: 20px; }\n                ",
        )
    } else if str_eq(low.as_str(), "dark") {
        String::from_str(
            "\n                    body { \n                        font-family: -apple-system, BlinkMacSystemFont, 'Segoe UI', Roboto;\n                        background: #1a1a1a; \n                        color: #e0e0e0;\n                        margin: 0;\n                        padding: 20px;\n                    }\n                    h1, h2, h3, h4, h5, h6 { color: #ffffff; margin-top: 1.5em; }\n                    a { color: #4a9eff; text-decoration: none; }\n                    a:hover { text-decoration: underline; }\n                    code, pre { background: #2a2a2a; padding: 10px; border-radius: 4px; color: #4a9eff; }\n                    blockquote { border-left: 4px solid #4a9eff; padding-left: 20px; color: #b0b0b0; }\n                ",
        )
    } else if str_eq(low.as_str(), "high-contrast") {
        String::from_str(
            "\n                    body { \n                        font-family: Arial, sans-serif;\n                        background: #000000; \n                        color: #ffffff;\n                        margin: 0;\n                        padding: 20px;\n                    }\n                    h1, h2, h3, h4, h5, h6 { color: #ffff00; }\n                    a { color: #00ff00; text-decoration: underline; }\n                    strong, em { font-weight: bold; }\n                ",
        )
    } else {
        String::from_str(
            "\n                    body { \n                        font-family: -apple-system, BlinkMacSystemFont, 'Segoe UI', Roboto;\n                        background: #1a1a1a; \n                        color: #e0e0e0;\n                        margin: 0;\n                        padding: 20px;\n                    }\n                    h1, h2, h3, h4, h5, h6 { color: #ffffff; margin-top: 1.5em; }\n                    a { color: #4a9eff; text-decoration: none; }\n                    a:hover { text-decoration: underline; }\n                    code, pre { background: #2a2a2a; padding: 10px; border-radius: 4px; color: #4a9eff; }\n                    blockquote { border-left: 4px solid #4a9eff; padding-left: 20px; color: #b0b0b0; }\n                ",
        )
    }
}

/// Append one string style piece ("prefix" then "value;"), when the
/// attribute is present and a string.
fn append_str_piece(style: &mut String, attrs: &Vec<Attribute>, key: &str, prefix: &str)
    ensures
        final(style)@ == old(style)@ + style_piece_str(attrs@, key@, prefix@),
{
    match find_attr(attrs, key) {
        Some(v) => match v {
            Value::String(s) => {
                style.append(prefix);
                style.append(s.as_str());
                style.append(";");
            },
            _ => {},
        },
        None => {},
    }
}

/// Append one numeric style piece ("prefix" then "valuepx;"), when the
/// attribute is present and a number.
fn append_num_piece(style: &mut String, attrs: &Vec<Attribute>, key: &str, prefix: &str)
    ensures
        final(style)@ == old(style)@ + style_piece_num(attrs@, key@, prefix@),
{
    match number_attr(attrs, key) {
        Some(n) => {
            style.append(prefix);
            let px = u64_to_string(lexeme_u32(n.as_str()) as u64);
            style.append(px.as_str());
            style.append("px;");
        },
        None => {},
    }
}

/// Build the inline style of an element from its attributes.
pub fn build_style(attributes: &Vec<Attribute>) -> (r: String)
    ensures
        r@ == spec_build_style(attributes@),
{
    let mut style = String::new();
    append_str_piece(&mut style, attributes, "color", "color: ");
    append_str_piece(&mut style, attributes, "background", "background: ");
    append_num_piece(&mut style, attributes, "padding", "padding: ");
    append_num_piece(&mut style, attributes, "margin", "margin: ");
    append_str_piece(&mut style, attributes, "border", "border: ");
    append_str_piece(&mut style, attributes, "align", "text-align: ");
    append_num_piece(&mut style, attributes, "font-size", "font-size: ");
    append_str_piece(&mut style, attributes, "font-weight", "font-weight: ");
    style
}

/// Render the children of a node, in order.
fn render_children(children: &Vec<AstNode>) -> (r: String)
    ensures
        r@ == spec_render_nodes(children@, children@.len() as int),
    decreases children@, 0int, 0int,
{
    let mut out = String::new();
    let mut i: usize = 0;
    while i < children.len()
        invariant
            i <= children@.len(),
            out@ == spec_render_nodes(children@, i as int),
        decreases children@.len() - i,
    {
        let piece = Renderer::render(&children[i]);
        out.append(piece.as_str());
        i = i + 1;
    }
    out
}

/// Render the children of a node, each HTML-escaped.
fn render_children_escaped(children: &Vec<AstNode>) -> (r: String)
    ensures
        r@ == spec_render_nodes_escaped(children@, children@.len() as int),
    decreases children@, 0int, 0int,
{
    let mut out = String::new();
    let mut i: usize = 0;
    while i < children.len()
        invariant
            i <= children@.len(),
            out@ == spec_render_nodes_escaped(children@, i as int),
        decreases children@.len() - i,
    {
        let piece = Renderer::render(&children[i]);
        let escaped = escape_html(piece.as_str());
        out.append(escaped.as_str());
        i = i + 1;
    }
    out
}

/// Render the children of a node as list items.
fn render_list_items(children: &Vec<AstNode>) -> (r: String)
    ensures
        r@ == spec_render_list_items(children@, children@.len() as int),
    decreases children@, 0int, 0int,
{
    let mut out = String::new();
    let mut i: usize = 0;
    while i < children.len()
        invariant
            i <= children@.len(),
            out@ == spec_render_list_items(children@, i as int),
        decreases children@.len() - i,
    {
        out.append("<li>");
        let piece = Renderer::render(&children[i]);
        out.append(piece.as_str());
        out.append("</li>\n");
        i = i + 1;
    }
    out
}

/// Render a whole document.
fn render_document(metadata: &Vec<Attribute>, children: &Vec<AstNode>) -> (r: String)
    ensures
        r@ == spec_render_document(metadata@, children@),
    decreases children@, 1int, 0int,
{
    let title = string_attr(metadata, "title", "Document");
    let theme = string_attr(metadata, "theme", "dark");
    let css = get_theme_css(theme.as_str());
    let mut html = String::from_str("<!DOCTYPE html>\n<html>\n<head>\n<title>");
    let etitle = escape_html(title.as_str());
    html.append(etitle.as_str());
    html.append("</title>\n");
    html.append(
        "<meta charset=\"utf-8\">\n<meta name=\"viewport\" content=\"width=device-width, initial-scale=1.0\">\n<style>\n",
    );
    html.append(css.as_str());
    html.append("</style>\n</head>\n<body>\n");
    let body = render_children(children);
    html.append(body.as_str());
    html.append("</body>\n</html>");
    html
}

/// Append a " style=\"...\"" fragment when the style is nonempty.
fn append_style(html: &mut String, style: &String)
    ensures
        final(html)@ == old(html)@ + style_fragment(style@),
{
    if !style.as_str().is_empty() {
        html.append(" style=\"");
        html.append(style.as_str());
        html.append("\"");
    }
}

/// Render one element by its tag.
fn render_element(tag: &String, attributes: &Vec<Attribute>, children: &Vec<AstNode>) -> (r:
    String)
    ensures
        r@ == spec_render_element(tag@, attributes@, children@),
    decreases children@, 1int, 1int,
{
    let low = lowercase(tag.as_str());
    let style = build_style(attributes);
    let mut html = String::new();
    if str_eq(low.as_str(), "page") {
        let inner = render_children(children);
        html.append(inner.as_str());
    } else if str_eq(low.as_str(), "header") {
        html.append("<header class=\"fdom-header\">\n");
        let inner = render_children(children);
        html.append(inner.as_str());
        html.append("</header>\n");
    } else if str_eq(low.as_str(), "section") {
        html.append("<section class=\"fdom-section\">\n");
        let inner = render_children(children);
        html.append(inner.as_str());
        html.append("</section>\n");
    } else if str_eq(low.as_str(), "footer") {
        html.append("<footer class=\"fdom-footer\">\n");
        let inner = render_children(children);
        html.append(inner.as_str());
        html.append("</footer>\n");
    } else if str_eq(low.as_str(), "aside") {
        html.append("<aside class=\"fdom-aside\">\n");
        let inner = render_children(children);
        html.append(inner.as_str());
        html.append("</aside>\n");
    } else if str_eq(low.as_str(), "heading") || str_eq(low.as_str(), "h1") || str_eq(
        low.as_str(),
        "h2",
    ) || str_eq(low.as_str(), "h3") || str_eq(low.as_str(), "h4") || str_eq(low.as_str(), "h5")
        || str_eq(low.as_str(), "h6") {
        let level: String = if str_eq(tag.as_str(), "heading") {
            String::from_str("h2")
        } else {
            tag.clone()
        };
        html.append("<");
        html.append(level.as_str());
        append_style(&mut html, &style);
        html.append(">");
        let inner = render_children(children);
        html.append(inner.as_str());
        html.append("</");
        html.append(level.as_str());
        html.append(">\\n");
    } else if str_eq(low.as_str(), "paragraph") {
        html.append("<p");
        append_style(&mut html, &style);
        html.append(">");
        let inner = render_children(children);
        html.append(inner.as_str());
        html.append("</p>\n");
    } else if str_eq(low.as_str(), "text") {
        let inner = render_children(children);
        html.append(inner.as_str());
    } else if str_eq(low.as_str(), "strong") {
        html.append("<strong>");
        let inner = render_children(children);
        html.append(inner.as_str());
        html.append("</strong>");
    } else if str_eq(low.as_str(), "emphasis") {
        html.append("<em>");
        let inner = render_children(children);
        html.append(inner.as_str());
        html.append("</em>");
    } else if str_eq(low.as_str(), "link") {
        let href = string_attr(attributes, "href", "#");
        let text = string_attr(attributes, "text", "Link");
        let title = string_attr(attributes, "title", "");
        html.append("<a href=\"");
        let e1 = escape_html(href.as_str());
        html.append(e1.as_str());
        html.append("\" title=\"");
        let e2 = escape_html(title.as_str());
        html.append(e2.as_str());
        html.append("\">");
        let e3 = escape_html(text.as_str());
        html.append(e3.as_str());
        html.append("</a>");
    } else if str_eq(low.as_str(), "image") {
        let src = string_attr(attributes, "src", "");
        let alt = string_attr(attributes, "alt", "");
        html.append("<img src=\"");
        let e1 = escape_html(src.as_str());
        html.append(e1.as_str());
        html.append("\" alt=\"");
        let e2 = escape_html(alt.as_str());
        html.append(e2.as_str());
        html.append("\"");
        match number_attr(attributes, "width") {
            Some(n) => {
                html.append(" width=\"");
                let px = u64_to_string(lexeme_u32(n.as_str()) as u64);
                html.append(px.as_str());
                html.append("\"");
            },
            None => {},
        }
        match number_attr(attributes, "height") {
            Some(n) => {
                html.append(" height=\"");
                let px = u64_to_string(lexeme_u32(n.as_str()) as u64);
                html.append(px.as_str());
                html.append("\"");
            },
            None => {},
        }
        html.append(" />\n");
    } else if str_eq(low.as_str(), "code") {
        html.append("<pre><code>");
        let inner = render_children_escaped(children);
        html.append(inner.as_str());
        html.append("</code></pre>\n");
    } else if str_eq(low.as_str(), "list") {
        html.append("<ul>\n");
        let inner = render_list_items(children);
        html.append(inner.as_str());
        html.append("</ul>\n");
    } else if str_eq(low.as_str(), "ordered") {
        html.append("<ol>\n");
        let inner = render_list_items(children);
        html.append(inner.as_str());
        html.append("</ol>\n");
    } else if str_eq(low.as_str(), "nav") {
        html.append("<nav class=\"fdom-nav\">\n");
        let inner = render_children(children);
        html.append(inner.as_str());
        html.append("</nav>\n");
    } else if str_eq(low.as_str(), "quote") {
        html.append("<blockquote>");
        let inner = render_children(children);
        html.append(inner.as_str());
        html.append("</blockquote>\n");
    } else if str_eq(low.as_str(), "box") || str_eq(low.as_str(), "div") {
        let class = string_attr(attributes, "class", "");
        html.append("<div");
        if !class.as_str().is_empty() {
            html.append(" class=\"");
            html.append(class.as_str());
            html.append("\"");
        }
        append_style(&mut html, &style);
        html.append(">\n");
        let inner = render_children(children);
        html.append(inner.as_str());
        html.append("</div>\n");
    } else if str_eq(low.as_str(), "table") {
        html.append("<table class=\"fdom-table\">\n");
        let inner = render_children(children);
        html.append(inner.as_str());
        html.append("</table>\n");
    } else if str_eq(low.as_str(), "row") {
        html.append("<tr>\n");
        let inner = render_children(children);
        html.append(inner.as_str());
        html.append("</tr>\n");
    } else if str_eq(low.as_str(), "cell") {
        html.append("<td>");
        let inner = render_children(children);
        html.append(inner.as_str());
        html.append("</td>");
    } else if str_eq(low.as_str(), "comment") {
    } else {
        html.append("<");
        html.append(tag.as_str());
        append_style(&mut html, &style);
        html.append(">\n");
        let inner = render_children(children);
        html.append(inner.as_str());
        html.append("</");
        html.append(tag.as_str());
        html.append(">\\n");
    }
    html
}

impl Renderer {
    /// Render a node to HTML.
    pub fn render(ast: &AstNode) -> (r: String)
        ensures
            r@ == spec_render(*ast),
        decreases *ast, 2int, 0int,
    {
        match ast {
            AstNode::Document { metadata, children } => render_document(metadata, children),
            AstNode::Element { tag, attributes, children } => render_element(
                tag,
                attributes,
                children,
            ),
            AstNode::Text(t) => t.clone(),
        }
    }
}

} // verus!
