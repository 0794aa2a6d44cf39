use renderer::{
    emit_all, parse_mode_and_separator, parse_pool_and_arity, parse_swizzle, strip_comments,
    swizzle, Arity, Mode, SwizzleError,
};

fn names(v: &[&str]) -> Vec<Vec<u8>> {
    v.iter().map(|s| s.as_bytes().to_vec()).collect()
}

fn run(input: &str) -> Result<String, SwizzleError> {
    swizzle(input.as_bytes()).map(|out| String::from_utf8(out).unwrap())
}

#[test]
fn parses_callback_form() {
    let sw = parse_swizzle(b"[x, y] 2 => f").unwrap();
    assert_eq!(sw.pool, names(&["x", "y"]));
    assert_eq!(sw.arity, Arity { start: 2, end: 3 });
    assert_eq!(sw.mode, Mode::Callback(b"f".to_vec()));
    assert_eq!(sw.separator, b"\n".to_vec());
}

#[test]
fn inclusive_range_keeps_both_ends() {
    let sw = parse_swizzle(b"[x, y, z] 2..=3 => f").unwrap();
    assert_eq!(sw.arity, Arity { start: 2, end: 4 });
}

#[test]
fn exclusive_range_drops_upper_bound() {
    let sw = parse_swizzle(b"[x, y, z] 2..3 => f").unwrap();
    assert_eq!(sw.arity, Arity { start: 2, end: 3 });
}

#[test]
fn range_operator_may_have_spaces() {
    let sw = parse_swizzle(b"[x, y, z] 1 ..= 3 => f").unwrap();
    assert_eq!(sw.arity, Arity { start: 1, end: 4 });
}

#[test]
fn parses_template_form_with_separator() {
    let sw = parse_swizzle(b"[x, y] 2 prefix \"g(\" suffix \");\" separated \"|\"").unwrap();
    assert_eq!(sw.mode, Mode::Template(b"g(".to_vec(), b");".to_vec()));
    assert_eq!(sw.separator, b"|".to_vec());
}

#[test]
fn separator_keywords() {
    for kw in ["separated by", "separated", "separator", "sep"] {
        let text = format!("[x] 1 => f {} \"::\"", kw);
        let sw = parse_swizzle(text.as_bytes()).unwrap();
        assert_eq!(sw.separator, b"::".to_vec(), "keyword {}", kw);
    }
}

#[test]
fn unreadable_separator_falls_back_to_line_feed() {
    let sw = parse_swizzle(b"[x] 1 => f separated \"unterminated").unwrap();
    assert_eq!(sw.separator, b"\n".to_vec());
    let sw = parse_swizzle(b"[x] 1 => f trailing words").unwrap();
    assert_eq!(sw.separator, b"\n".to_vec());
}

#[test]
fn empty_list_is_legal() {
    let sw = parse_swizzle(b"[] 0 => f").unwrap();
    assert!(sw.pool.is_empty());
    assert_eq!(emit_all(&sw), Vec::<u8>::new());
}

#[test]
fn field_names_take_bangs_underscores_and_digits() {
    let sw = parse_swizzle(b"[a_1,B!2 ,  c] 1 => cb_9").unwrap();
    assert_eq!(sw.pool, names(&["a_1", "B!2", "c"]));
    assert_eq!(sw.mode, Mode::Callback(b"cb_9".to_vec()));
}

#[test]
fn malformed_array_is_refused() {
    assert_eq!(parse_swizzle(b"x, y] 2 => f"), Err(SwizzleError::InvalidArray));
    assert_eq!(parse_swizzle(b"[x, ] 1 => f"), Err(SwizzleError::InvalidArray));
    assert_eq!(parse_swizzle(b"[x y] 1 => f"), Err(SwizzleError::InvalidArray));
    assert_eq!(parse_swizzle(b"[ x] 1 => f"), Err(SwizzleError::InvalidArray));
    assert_eq!(parse_swizzle(b""), Err(SwizzleError::InvalidArray));
}

#[test]
fn missing_or_huge_length_is_refused() {
    assert_eq!(parse_swizzle(b"[x] => f"), Err(SwizzleError::InvalidLength));
    assert_eq!(
        parse_swizzle(b"[x] 999999999999999999999999 => f"),
        Err(SwizzleError::InvalidLength)
    );
}

#[test]
fn range_beyond_pool_is_refused() {
    assert_eq!(parse_swizzle(b"[x, y] 3 => f"), Err(SwizzleError::RangeBeyondArray));
    assert_eq!(parse_swizzle(b"[x, y] 1..=3 => f"), Err(SwizzleError::RangeBeyondArray));
    assert_eq!(parse_swizzle(b"[x, y] 0..4 => f"), Err(SwizzleError::RangeBeyondArray));
    assert!(parse_swizzle(b"[x, y] 0..3 => f").is_ok());
}

#[test]
fn missing_mode_is_refused() {
    assert_eq!(parse_swizzle(b"[x] 1 f"), Err(SwizzleError::InvalidCallback));
    assert_eq!(parse_swizzle(b"[x] 1 prefix \"a\""), Err(SwizzleError::InvalidCallback));
    assert_eq!(parse_swizzle(b"[x] 1 prefix \"a\" suffix"), Err(SwizzleError::InvalidCallback));
}

#[test]
fn error_messages() {
    assert_eq!(SwizzleError::InvalidArray.message(), "Failed to parse array");
    assert_eq!(
        SwizzleError::RangeBeyondArray.message(),
        "range would go beyond the provided array"
    );
    assert_eq!(SwizzleError::InvalidCallback.message(), "Failed to parse callback");
}

#[test]
fn two_stage_parsing() {
    let text = b"[x, y] 1..=2 => f sep \",\"";
    let (pool, arity, rest) = parse_pool_and_arity(text).unwrap();
    assert_eq!(pool, names(&["x", "y"]));
    assert_eq!(arity, Arity { start: 1, end: 3 });
    assert_eq!(&text[rest..], b" => f sep \",\"");
    let (mode, sep) = parse_mode_and_separator(text, rest).unwrap();
    assert_eq!(mode, Mode::Callback(b"f".to_vec()));
    assert_eq!(sep, b",".to_vec());
}

#[test]
fn end_to_end_callback() {
    assert_eq!(
        run("[x, y] 2 => combine").unwrap(),
        "combine(x, x, x, x);\ncombine(x, y, x, y);\ncombine(y, x, y, x);\ncombine(y, y, y, y);\n"
    );
}

#[test]
fn end_to_end_template_with_separator() {
    assert_eq!(
        run("[x, y] 1 prefix \"g(\" suffix \");\" sep \"|\"").unwrap(),
        "g(x, x);|g(y, y);|"
    );
}

#[test]
fn lengths_come_in_ascending_order() {
    assert_eq!(
        run("[a, b] 1..=2 => f").unwrap(),
        "f(a, a);\nf(b, b);\nf(a, a, a, a);\nf(a, b, a, b);\nf(b, a, b, a);\nf(b, b, b, b);\n"
    );
}

#[test]
fn zero_and_empty_lengths_emit_nothing() {
    assert_eq!(run("[x] 0 => f").unwrap(), "");
    assert_eq!(run("[x, y] 1..1 => f").unwrap(), "");
    assert_eq!(run("[x, y] 2..=1 => f").unwrap(), "");
}

#[test]
fn comments_are_stripped_before_parsing() {
    assert_eq!(
        run("[x, y] // the fields\n 1 => f // the callback\n").unwrap(),
        "f(x, x);\nf(y, y);\n"
    );
}

#[test]
fn errors_pass_through_the_pipeline() {
    assert_eq!(run("[x, y] 3 => f"), Err(SwizzleError::RangeBeyondArray));
    assert_eq!(run("// only a comment"), Err(SwizzleError::InvalidArray));
}

#[test]
fn generation_is_repeatable() {
    let input = "[x, y, z] 1..=3 prefix \"s!(T, \" suffix \");\"";
    let first = run(input).unwrap();
    let second = run(input).unwrap();
    assert_eq!(first, second);
    assert_eq!(first.lines().count(), 3 + 9 + 27);
}

#[test]
fn strip_comments_cuts_each_line() {
    assert_eq!(strip_comments(b"a // c\nb"), b"a \nb\n".to_vec());
    assert_eq!(strip_comments(b"// all\n//\nx//y//z"), b"\n\nx\n".to_vec());
    assert_eq!(strip_comments(b"p\r\nq\r"), b"p\nq\r\n".to_vec());
    assert_eq!(strip_comments(b"a/b / c"), b"a/b / c\n".to_vec());
    assert_eq!(strip_comments(b""), Vec::<u8>::new());
    assert_eq!(strip_comments(b"\n\n"), b"\n\n".to_vec());
}

#[test]
fn leading_zero_ends_the_length() {
    assert_eq!(parse_swizzle(b"[x] 02 => f"), Err(SwizzleError::InvalidCallback));
    let sw = parse_swizzle(b"[x, y] 0..=2 => f").unwrap();
    assert_eq!(sw.arity, Arity { start: 0, end: 3 });
}
