use hex_utils::format::InvalidConfig;
use hex_utils::{xxd, xxd_str, Format};

fn line(offset: usize, hex: &str, ascii: Option<&str>) -> Option<(usize, String, Option<String>)> {
    Some((offset, hex.to_string(), ascii.map(|t| t.to_string())))
}

#[test]
fn xxd_test() {
    let text = "[package]
name = \"hex-utils\"
version = \"0.1.5\"
authors = [\"Anicka Burova <anicka.burova@gmail.com>\"]

[dependencies]
itertools = \"*\"";
    let output = "000000: 5b70 6163  6b61 6765  5d0a 6e61  6d65 203d  [package].name =\n\
000010: 2022 6865  782d 7574  696c 7322  0a76 6572   \"hex-utils\".ver\n\
000020: 7369 6f6e  203d 2022  302e 312e  3522 0a61  sion = \"0.1.5\".a\n\
000030: 7574 686f  7273 203d  205b 2241  6e69 636b  uthors = [\"Anick\n\
000040: 6120 4275  726f 7661  203c 616e  6963 6b61  a Burova <anicka\n\
000050: 2e62 7572  6f76 6140  676d 6169  6c2e 636f  .burova@gmail.co\n\
000060: 6d3e 225d  0a0a 5b64  6570 656e  6465 6e63  m>\"]..[dependenc\n\
000070: 6965 735d  0a69 7465  7274 6f6f  6c73 203d  ies].itertools =\n\
000080: 2022 2a22                                    \"*\"\n";
    let format = Format::new(16, vec![2, 4], '.', true, (1, 2)).unwrap();
    let xxd_output = xxd_str(text.as_bytes(), Some(format));
    assert_eq!(output.to_string(), xxd_output);
}

#[test]
fn default_format_has_the_documented_fields() {
    let format = Format::default().unwrap();
    assert_eq!(16, format.size());
    assert_eq!(&vec![2, 4, 8], format.pack());
    assert_eq!('.', format.ascii_none());
    assert!(format.ascii());
    assert_eq!((2, 2), format.gaps());
    assert_eq!(43, format.get_hex_size());
}

#[test]
fn or_default_keeps_a_given_format() {
    let format = Some(Format::new(9, vec![3, 5], '#', true, (2, 3)).unwrap());
    let opt = Format::or_default(format);
    assert_eq!(9, opt.size());
    assert_eq!(&vec![3, 5], opt.pack());
    assert_eq!('#', opt.ascii_none());
    assert_eq!((2, 3), opt.gaps());
}

#[test]
fn or_default_fills_in_the_default() {
    let opt = Format::or_default(None);
    assert_eq!(16, opt.size());
    assert_eq!(&vec![2, 4, 8], opt.pack());
    assert_eq!('.', opt.ascii_none());
}

#[test]
fn zero_size_is_refused() {
    assert_eq!(Format::new(0, vec![2, 4], '.', true, (1, 2)).err(), Some(InvalidConfig::ZeroSize));
    assert_eq!(Format::new(0, vec![], '.', false, (0, 0)).err(), Some(InvalidConfig::ZeroSize));
}

#[test]
fn a_hex_column_beyond_usize_is_refused() {
    assert_eq!(
        Format::new(usize::MAX, vec![], '.', true, (1, 2)).err(),
        Some(InvalidConfig::TooWide)
    );
    assert_eq!(
        Format::new(usize::MAX / 2 + 1, vec![], '.', true, (1, 2)).err(),
        Some(InvalidConfig::TooWide)
    );
    assert_eq!(
        Format::new(usize::MAX / 2, vec![1], '.', true, (1, 2)).err(),
        Some(InvalidConfig::TooWide)
    );
    let widest = Format::new(usize::MAX / 2, vec![0], '.', true, (1, 2)).unwrap();
    assert_eq!(widest.get_hex_size(), usize::MAX - 1);
}

#[test]
fn hex_width_counts_digits_and_inner_separators() {
    let width = |size: usize, pack: Vec<usize>| {
        Format::new(size, pack, '.', true, (1, 1)).unwrap().get_hex_size()
    };
    assert_eq!(width(16, vec![2, 4]), 42);
    assert_eq!(width(16, vec![2, 4, 8]), 43);
    assert_eq!(width(16, vec![]), 32);
    assert_eq!(width(16, vec![0]), 32);
    assert_eq!(width(16, vec![0, 2, 0]), 39);
    assert_eq!(width(1, vec![1, 2]), 2);
    assert_eq!(width(4, vec![1]), 11);
    assert_eq!(width(18, vec![3, 6]), 36 + 5 + 2);
    assert_eq!(width(9, vec![3, 5]), 18 + 2 + 1);
    assert_eq!(width(5, vec![2, 2]), 10 + 2 + 2);
}

#[test]
fn lines_carry_offsets_in_steps_of_size() {
    let format = Format::new(4, vec![2], '.', true, (1, 1)).unwrap();
    let mut lines = xxd(b"abcdefghij", Some(format));
    assert_eq!(lines.next(), line(0, "6162 6364 ", Some("abcd")));
    assert_eq!(lines.next(), line(4, "6566 6768 ", Some("efgh")));
    assert_eq!(lines.next(), line(8, "696a ", Some("ij")));
    assert_eq!(lines.next(), None);
    assert_eq!(lines.next(), None);
}

#[test]
fn a_source_of_whole_lines_ends_after_the_last() {
    let format = Format::new(2, vec![], '.', true, (1, 1)).unwrap();
    let mut lines = xxd(b"abcd", Some(format));
    assert_eq!(lines.next(), line(0, "6162", Some("ab")));
    assert_eq!(lines.next(), line(2, "6364", Some("cd")));
    assert_eq!(lines.next(), None);
}

#[test]
fn empty_input_has_no_lines() {
    let mut lines = xxd(b"", None);
    assert_eq!(lines.next(), None);
    assert_eq!(lines.next(), None);
    assert_eq!(xxd_str(b"", None), "");
    let format = Format::new(3, vec![1], '?', false, (0, 0)).unwrap();
    assert_eq!(xxd_str(&[], Some(format)), "");
}

#[test]
fn periods_that_meet_each_put_their_space() {
    let format = Format::new(8, vec![2, 4, 2], '.', true, (1, 1)).unwrap();
    let mut lines = xxd(&[0, 1, 2, 3, 4, 5, 6, 7], Some(format));
    assert_eq!(lines.next(), line(0, "0001  0203   0405  0607   ", Some("........")));
}

#[test]
fn a_period_of_one_parts_every_byte() {
    let format = Format::new(3, vec![1], '.', false, (1, 1)).unwrap();
    let mut lines = xxd(&[0xde, 0xad, 0xbe, 0xef], Some(format));
    assert_eq!(lines.next(), line(0, "de ad be ", None));
    assert_eq!(lines.next(), line(3, "ef ", None));
    assert_eq!(lines.next(), None);
}

#[test]
fn a_period_of_zero_puts_no_space() {
    let format = Format::new(4, vec![0, 3], '.', true, (1, 1)).unwrap();
    let mut lines = xxd(b"wxyz", Some(format));
    assert_eq!(lines.next(), line(0, "777879 7a", Some("wxyz")));
}

#[test]
fn counters_start_anew_with_each_line() {
    let format = Format::new(3, vec![2], '.', true, (1, 1)).unwrap();
    let mut lines = xxd(b"abcdef", Some(format));
    assert_eq!(lines.next(), line(0, "6162 63", Some("abc")));
    assert_eq!(lines.next(), line(3, "6465 66", Some("def")));
}

#[test]
fn bytes_outside_the_printable_range_show_the_substitute() {
    let format = Format::new(6, vec![], '#', true, (1, 1)).unwrap();
    let mut lines = xxd(&[31, 32, 126, 127, 0, 255], Some(format));
    assert_eq!(lines.next(), line(0, "1f207e7f00ff", Some("# ~###")));
}

#[test]
fn digits_are_lowercase_and_two_to_a_byte() {
    let format = Format::new(4, vec![], '.', false, (1, 1)).unwrap();
    let mut lines = xxd(&[0x00, 0x0a, 0xa0, 0xff], Some(format));
    assert_eq!(lines.next(), line(0, "000aa0ff", None));
}

#[test]
fn without_ascii_neither_record_nor_text_has_the_column() {
    let format = Format::new(4, vec![2], '.', false, (2, 5)).unwrap();
    let mut lines = xxd(b"abcdef", Some(format));
    assert_eq!(lines.next(), line(0, "6162 6364 ", None));
    assert_eq!(lines.next(), line(4, "6566 ", None));
    let format = Format::new(4, vec![2], '.', false, (2, 5)).unwrap();
    assert_eq!(xxd_str(b"abcdef", Some(format)), "000000:  6162 6364\n000004:  6566     \n");
}

#[test]
fn a_short_last_line_is_padded_to_the_column() {
    let format = Format::new(4, vec![2], '.', true, (1, 2)).unwrap();
    let width = format.get_hex_size();
    assert_eq!(width, 9);
    let text = xxd_str(b"abcdefghi", Some(format));
    assert_eq!(text, "000000: 6162 6364  abcd\n000004: 6566 6768  efgh\n000008: 69         i\n");
    for row in text.lines() {
        let ascii_at = 6 + 1 + 1 + width + 2;
        assert!(row.len() > ascii_at);
        assert_eq!(&row[8 + width..ascii_at], "  ");
    }
}

#[test]
fn the_default_dump_groups_by_two_four_and_eight() {
    let text = "The quick brown fox jumps over the lazy dog";
    let expected = "000000:  5468 6520  7175 6963   6b20 6272  6f77 6e20  The quick brown \n\
000010:  666f 7820  6a75 6d70   7320 6f76  6572 2074  fox jumps over t\n\
000020:  6865 206c  617a 7920   646f 67               he lazy dog\n";
    assert_eq!(xxd_str(text.as_bytes(), None), expected);
}

#[test]
fn formatter_renders_a_record() {
    let format = Format::new(4, vec![2], '.', true, (3, 2)).unwrap();
    let fmt = format.formatter();
    assert_eq!(fmt.hex_size, 9);
    assert_eq!(fmt.gap0, 3);
    assert_eq!(fmt.gap1, 2);
    let text = fmt.format((0x1f, "6162 ".to_string(), Some("ab".to_string())));
    assert_eq!(text, "00001f:   6162       ab");
    let text = fmt.format((0x1f, "6162 ".to_string(), None));
    assert_eq!(text, "00001f:   6162     ");
}

#[test]
fn formatter_follows_std_formatting() {
    let format = Format::new(18, vec![3, 6], '-', true, (4, 2)).unwrap();
    let fmt = format.formatter();
    let hex_size = format.get_hex_size();
    for (offset, hex, ascii) in [
        (0usize, "", "x"),
        (18, "546865 20 ", "The "),
        (0xabcdef, " \t 61\u{a0}62 \u{3000}\n", ".."),
        (0x1234567, "0123456789012345678901234567890123456789012345678901234567890", ""),
        (usize::MAX, "\u{2003}", "\u{e9}"),
    ] {
        let expected =
            format!("{:06x}:{:4}{:hex$}{:2}{}", offset, "", hex.trim(), "", ascii, hex = hex_size);
        assert_eq!(fmt.format((offset, hex.to_string(), Some(ascii.to_string()))), expected);
        let expected = format!("{:06x}:{:4}{:hex$}", offset, "", hex.trim(), hex = hex_size);
        assert_eq!(fmt.format((offset, hex.to_string(), None)), expected);
    }
}

#[test]
fn formatter_keeps_all_digits_of_a_large_offset() {
    let fmt = Format::new(1, vec![], '.', true, (0, 0)).unwrap().formatter();
    assert_eq!(fmt.format((0xfffff, "00".to_string(), None)), "0fffff:00");
    assert_eq!(fmt.format((0x100000, "00".to_string(), None)), "100000:00");
    assert_eq!(fmt.format((0x12345678, "00".to_string(), None)), "12345678:00");
    assert_eq!(fmt.format((0, "00".to_string(), None)), "000000:00");
}

#[test]
fn formatter_keeps_a_hex_text_longer_than_the_column() {
    let fmt = Format::new(1, vec![], '.', true, (1, 1)).unwrap().formatter();
    let text = fmt.format((0, "  616263  ".to_string(), Some("abc".to_string())));
    assert_eq!(text, "000000: 616263 abc");
}

#[test]
fn hex_text_decodes_to_the_bytes_of_the_line() {
    let data: Vec<u8> = (0u8..=255).collect();
    let format = Format::new(7, vec![2, 3, 0, 1], '.', true, (1, 1)).unwrap();
    let mut lines = xxd(&data, Some(format));
    let mut offset = 0;
    while let Some((at, hex, _)) = lines.next() {
        assert_eq!(at, offset);
        let digits: Vec<u8> = hex.bytes().filter(|c| *c != b' ').collect();
        let bytes: Vec<u8> = digits
            .chunks(2)
            .map(|pair| u8::from_str_radix(std::str::from_utf8(pair).unwrap(), 16).unwrap())
            .collect();
        let end = (offset + 7).min(data.len());
        assert_eq!(bytes, &data[offset..end]);
        offset += 7;
    }
    assert_eq!(offset, 259);
}
