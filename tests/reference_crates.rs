use renderer::{parse_pool_and_arity, parse_swizzle, Arity, Buffer, Rgba, SwizzleError};
use winnow::ascii::{dec_uint, multispace0};
use winnow::error::ErrMode;
use winnow::Parser;

fn winnow_uint(s: &str) -> Option<(usize, usize)> {
    let mut input = s;
    let r: Result<usize, ErrMode<()>> = dec_uint.parse_next(&mut input);
    r.ok().map(|v| (v, s.len() - input.len()))
}

fn winnow_space_len(s: &str) -> usize {
    let mut input = s;
    let r: Result<&str, ErrMode<()>> = multispace0.parse_next(&mut input);
    r.unwrap().len()
}

#[test]
fn lengths_read_as_winnow_reads_unsigned_integers() {
    let cases = [
        "0", "1", "7", "42", "02", "007", "10", "18446744073709551615", "18446744073709551616",
        "99999999999999999999999", "x1", "",
    ];
    for num in cases {
        let text = format!("[x] {num}");
        let got = parse_pool_and_arity(text.as_bytes());
        match winnow_uint(num) {
            None => assert_eq!(got, Err(SwizzleError::InvalidLength), "{num}"),
            Some((v, len)) if v <= 1 => {
                let (_, arity, rest) = got.unwrap();
                assert_eq!(arity, Arity { start: v, end: v + 1 }, "{num}");
                assert_eq!(rest, 4 + len, "{num}");
            }
            Some(_) => assert_eq!(got, Err(SwizzleError::RangeBeyondArray), "{num}"),
        }
    }
}

#[test]
fn spaces_are_those_winnow_skips() {
    let cases = [" ", "\t", "\n", "\r\n", "  \t ", "", "\u{b}", "\u{c}", "\u{a0}"];
    for ws in cases {
        let text = format!("[x{ws},{ws}y] 1 => f");
        let skipped_all = winnow_space_len(ws) == ws.len();
        let got = parse_swizzle(text.as_bytes());
        assert_eq!(got.is_ok(), skipped_all, "{:?}", ws);
    }
}

#[test]
fn pixel_layout_matches_memory_order() {
    let v: u32 = 0x8040_2010;
    let bytes: [u8; 4] = bytemuck::cast(v);
    let p = Rgba::from(v);
    if bytes == v.to_le_bytes() {
        assert_eq!([p.b, p.g, p.r, p.a], bytes);
    } else {
        assert_eq!([p.a, p.r, p.g, p.b], bytes);
    }
}

#[test]
fn packed_pixels_match_memory_order() {
    let buf = Buffer::new_with(2, 1, |x, _| Rgba::new(1 + x as u8, 2, 3, 4));
    let packed = buf.as_rgba();
    let bytes: &[u8] = bytemuck::cast_slice(&packed);
    for (i, p) in buf.inner_buf().iter().enumerate() {
        let word: [u8; 4] = bytes[4 * i..4 * i + 4].try_into().unwrap();
        assert_eq!(u32::from_ne_bytes(word), packed[i]);
        assert_eq!(Rgba::from(packed[i]), *p);
    }
}
