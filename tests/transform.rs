use unsafe_fields::{unsafe_fields, Delimiter, Group, Ident, Literal, Punct, Spacing, TokenTree, TransformError};

fn is_ident_char(c: char) -> bool {
    c.is_ascii_alphanumeric() || c == '_'
}

fn closer(d: Delimiter) -> char {
    match d {
        Delimiter::Parenthesis => ')',
        Delimiter::Brace => '}',
        Delimiter::Bracket => ']',
        Delimiter::Invisible => ' ',
    }
}

fn lex_seq(chars: &[char], pos: &mut usize, end: Option<char>) -> Vec<TokenTree> {
    let mut out = Vec::new();
    while *pos < chars.len() {
        let c = chars[*pos];
        if Some(c) == end {
            *pos += 1;
            return out;
        }
        if c.is_whitespace() {
            *pos += 1;
        } else if c == '"' {
            let start = *pos;
            *pos += 1;
            while chars[*pos] != '"' {
                *pos += 1;
            }
            *pos += 1;
            let text: String = chars[start..*pos].iter().collect();
            out.push(TokenTree::Literal(Literal { text }));
        } else if is_ident_char(c) {
            let start = *pos;
            while *pos < chars.len() && is_ident_char(chars[*pos]) {
                *pos += 1;
            }
            let text: String = chars[start..*pos].iter().collect();
            if text.chars().next().unwrap().is_ascii_digit() {
                out.push(TokenTree::Literal(Literal { text }));
            } else {
                out.push(TokenTree::Ident(Ident { text }));
            }
        } else if c == '(' || c == '[' || c == '{' {
            let delimiter = match c {
                '(' => Delimiter::Parenthesis,
                '[' => Delimiter::Bracket,
                _ => Delimiter::Brace,
            };
            *pos += 1;
            let stream = lex_seq(chars, pos, Some(closer(delimiter)));
            out.push(TokenTree::Group(Group { delimiter, stream }));
        } else {
            *pos += 1;
            let next = chars.get(*pos).copied();
            let joint = matches!(next, Some(n) if !n.is_whitespace() && !is_ident_char(n)
                && !"()[]{}\"".contains(n));
            let spacing = if joint { Spacing::Joint } else { Spacing::Alone };
            out.push(TokenTree::Punct(Punct { ch: c, spacing }));
        }
    }
    out
}

fn lex(src: &str) -> Vec<TokenTree> {
    let chars: Vec<char> = src.chars().collect();
    let mut pos = 0;
    lex_seq(&chars, &mut pos, None)
}

fn render(ts: &[TokenTree]) -> String {
    let mut parts: Vec<String> = Vec::new();
    for t in ts {
        match t {
            TokenTree::Ident(i) => parts.push(i.text.clone()),
            TokenTree::Literal(l) => parts.push(l.text.clone()),
            TokenTree::Punct(p) => parts.push(p.ch.to_string()),
            TokenTree::Group(g) => {
                let (open, close) = match g.delimiter {
                    Delimiter::Parenthesis => ("(", ")"),
                    Delimiter::Brace => ("{", "}"),
                    Delimiter::Bracket => ("[", "]"),
                    Delimiter::Invisible => ("", ""),
                };
                parts.push(format!("{} {} {}", open, render(&g.stream), close));
            }
        }
    }
    parts.join(" ")
}

fn run(src: &str) -> Result<Vec<TokenTree>, TransformError> {
    unsafe_fields(Vec::new(), lex(src))
}

fn assert_rewrites(src: &str, expected: &str) {
    let out = run(src).expect("transform failed");
    assert_eq!(render(&out), render(&lex(expected)));
}

fn field_block(ts: &[TokenTree]) -> &[TokenTree] {
    for t in ts {
        if let TokenTree::Group(g) = t {
            if g.delimiter == Delimiter::Brace {
                return &g.stream;
            }
        }
    }
    panic!("no field block");
}

#[test]
fn plain_record_passes_through() {
    assert_rewrites("struct S { a: u32, b: u32, }", "struct S { a: u32, b: u32, }");
}

#[test]
fn marked_field_is_wrapped() {
    assert_rewrites(
        "struct S { #[unsafe_field] a: u32, b: u32, }",
        "struct S { a: ::unsafe_fields::UnsafeField<u32>, b: u32, }",
    );
}

#[test]
fn commas_inside_angle_brackets_stay_in_type() {
    assert_rewrites(
        "struct S<T> { #[unsafe_field] pub(crate) xs: Vec<(T, T)>, }",
        "struct S<T> { pub(crate) xs: ::unsafe_fields::UnsafeField<Vec<(T, T)>>, }",
    );
    assert_rewrites(
        "struct S<K, V> { #[unsafe_field] m: HashMap<K, Vec<V>>, n: u8, }",
        "struct S<K, V> { m: ::unsafe_fields::UnsafeField<HashMap<K, Vec<V>>>, n: u8, }",
    );
}

#[test]
fn duplicate_marker_is_rejected() {
    assert!(matches!(run("struct S { #[unsafe_field] #[unsafe_field] a: u32, }").unwrap_err(), TransformError::DuplicateMarker));
}

#[test]
fn enum_is_rejected() {
    assert!(matches!(run("enum E { A, B }").unwrap_err(), TransformError::NotARecord));
    assert!(matches!(run("pub union U { a: u32, }").unwrap_err(), TransformError::NotARecord));
}

#[test]
fn other_attributes_are_kept() {
    assert_rewrites(
        "struct S { #[some_other_attr] #[unsafe_field] a: u32, }",
        "struct S { #[some_other_attr] a: ::unsafe_fields::UnsafeField<u32>, }",
    );
    assert_rewrites(
        "struct S { #[unsafe_field] #[doc = \"x\"] pub a: u32, }",
        "struct S { #[doc = \"x\"] pub a: ::unsafe_fields::UnsafeField<u32>, }",
    );
}

#[test]
fn marker_of_another_shape_passes_through() {
    assert_rewrites(
        "struct S { #[unsafe_field(x)] a: u32, #[my::unsafe_field] b: u8, }",
        "struct S { #[unsafe_field(x)] a: u32, #[my::unsafe_field] b: u8, }",
    );
}

#[test]
fn field_order_is_kept() {
    assert_rewrites(
        "struct S { c: u8, #[unsafe_field] a: u16, b: u32, #[unsafe_field] d: u64, }",
        "struct S { c: u8, a: ::unsafe_fields::UnsafeField<u16>, b: u32, \
         d: ::unsafe_fields::UnsafeField<u64>, }",
    );
}

#[test]
fn last_field_gets_a_comma() {
    assert_rewrites("struct S { a: u32, b: u8 }", "struct S { a: u32, b: u8, }");
    assert_rewrites(
        "struct S { #[unsafe_field] a: u32 }",
        "struct S { a: ::unsafe_fields::UnsafeField<u32>, }",
    );
    let out = run("struct S { a: u32, b: u8 }").unwrap();
    match field_block(&out).last() {
        Some(TokenTree::Punct(p)) => assert_eq!(p.ch, ','),
        _ => panic!("block does not end with a comma"),
    }
}

#[test]
fn wrapper_path_is_absolute() {
    let out = run("struct S { #[unsafe_field] a: u32, }").unwrap();
    let block = field_block(&out);
    match (&block[2], &block[3], &block[4]) {
        (TokenTree::Punct(p), TokenTree::Punct(q), TokenTree::Ident(i)) => {
            assert_eq!((p.ch, p.spacing), (':', Spacing::Joint));
            assert_eq!((q.ch, q.spacing), (':', Spacing::Alone));
            assert_eq!(i.text, "unsafe_fields");
        }
        _ => panic!("unexpected tokens"),
    }
}

#[test]
fn wrapping_is_not_idempotent() {
    assert_rewrites(
        "struct S { #[unsafe_field] a: ::unsafe_fields::UnsafeField<u32>, }",
        "struct S { a: ::unsafe_fields::UnsafeField<::unsafe_fields::UnsafeField<u32>>, }",
    );
}

#[test]
fn preamble_and_generics_are_kept() {
    assert_rewrites(
        "#[repr(C)] pub(crate) struct MyVec<T> where T: Copy { #[unsafe_field] ptr: *mut T, len: usize, }",
        "#[repr(C)] pub(crate) struct MyVec<T> where T: Copy { ptr: ::unsafe_fields::UnsafeField<*mut T>, len: usize, }",
    );
}

#[test]
fn empty_block_is_accepted() {
    assert_rewrites("struct S {}", "struct S {}");
}

#[test]
fn missing_block_is_rejected() {
    assert!(matches!(run("struct S(u32);").unwrap_err(), TransformError::MissingFieldBlock));
    assert!(matches!(run("").unwrap_err(), TransformError::MissingFieldBlock));
}

#[test]
fn hash_without_brackets_is_rejected() {
    assert!(matches!(run("struct S { # a: u32, }").unwrap_err(), TransformError::AttributeShape(_)));
    assert!(matches!(run("struct S { #").unwrap_err(), TransformError::AttributeShape(_)));
}

#[test]
fn duplicate_visibility_is_rejected() {
    assert!(matches!(run("struct S { pub pub a: u32, }").unwrap_err(), TransformError::DuplicateVisibility));
    assert!(matches!(run("struct S { pub(crate) pub a: u32, }").unwrap_err(), TransformError::DuplicateVisibility));
}

#[test]
fn unexpected_tokens_are_rejected() {
    assert!(matches!(run("struct S { 1: u32, }").unwrap_err(), TransformError::UnexpectedToken(_)));
    assert!(matches!(run("struct S { a u32, }").unwrap_err(), TransformError::UnexpectedToken(_)));
    assert!(matches!(run("struct S { a: u32>, }").unwrap_err(), TransformError::UnexpectedToken(_)));
}

#[test]
fn dangling_attributes_are_rejected() {
    assert!(matches!(run("struct S { a: u32, #[doc] }").unwrap_err(), TransformError::PrematureEnd));
    assert!(matches!(run("struct S { #[unsafe_field] }").unwrap_err(), TransformError::PrematureEnd));
    assert!(matches!(run("struct S { pub a }").unwrap_err(), TransformError::PrematureEnd));
}

#[test]
fn arrows_in_types_pass_through() {
    let src = "struct S { f: fn() -> u32, g: Box<dyn Fn(u8) -> u32>, h: HashMap<fn() -> u8, u32>, }";
    assert_rewrites(src, src);
}

#[test]
fn marked_function_pointer_is_wrapped() {
    assert_rewrites(
        "struct S { #[unsafe_field] f: fn() -> u32, #[unsafe_field] g: Box<dyn Fn() -> u8> }",
        "struct S { f: ::unsafe_fields::UnsafeField<fn() -> u32>, \
         g: ::unsafe_fields::UnsafeField<Box<dyn Fn() -> u8>>, }",
    );
}

fn token_text(t: &TokenTree) -> String {
    render(std::slice::from_ref(t))
}

#[test]
fn errors_name_the_offending_token() {
    match run("struct S { 1: u32, }").unwrap_err() {
        TransformError::UnexpectedToken(t) => assert_eq!(token_text(&t), "1"),
        e => panic!("unexpected error {:?}", e),
    }
    match run("struct S { a u32, }").unwrap_err() {
        TransformError::UnexpectedToken(t) => assert_eq!(token_text(&t), "u32"),
        e => panic!("unexpected error {:?}", e),
    }
    match run("struct S { a: u32>, }").unwrap_err() {
        TransformError::UnexpectedToken(t) => assert_eq!(token_text(&t), ">"),
        e => panic!("unexpected error {:?}", e),
    }
    match run("struct S { ; a: u32, }").unwrap_err() {
        TransformError::UnexpectedToken(t) => assert_eq!(token_text(&t), ";"),
        e => panic!("unexpected error {:?}", e),
    }
    match run("struct S { # a: u32, }").unwrap_err() {
        TransformError::AttributeShape(Some(t)) => assert_eq!(token_text(&t), "a"),
        e => panic!("unexpected error {:?}", e),
    }
    assert!(matches!(run("struct S { #").unwrap_err(), TransformError::AttributeShape(None)));
}
