use gpu_buffers::text;

fn chars(text: &str) -> Vec<char> {
    text.chars().collect()
}

#[test]
fn white_space_is_what_unicode_says() {
    for code in 0..=0x10_ffff {
        if let Some(c) = char::from_u32(code) {
            assert_eq!(text::white_space(c), c.is_whitespace(), "U+{code:04X}");
        }
    }
}

#[test]
fn strings_round_trip() {
    for sample in ["", "a", "live_slots", "×é漢\u{1f600}"] {
        assert_eq!(text::chars_of(sample), chars(sample));
        assert_eq!(text::string_of(&chars(sample)), sample);
    }
}

#[test]
fn positions_are_first_and_last() {
    let samples = ["", "a", "::", ":::", "a::b::c", "std::h::h1", "xx: y: z"];
    for sample in samples {
        for pattern in ["::", "::h", ": ", "a"] {
            let all = chars(sample);
            let wanted = chars(pattern);
            let first = sample.find(pattern).map(|at| sample[..at].chars().count());
            let last = sample.rfind(pattern).map(|at| sample[..at].chars().count());
            assert_eq!(text::position(&all, &wanted), first, "{sample} {pattern}");
            assert_eq!(text::last_position(&all, &wanted), last, "{sample} {pattern}");
            assert_eq!(text::has(&all, &wanted), sample.contains(pattern));
        }
    }
}

#[test]
fn trimming_takes_white_space_off_both_ends() {
    for sample in ["", " ", "a", " a ", "\t a b \u{3000}\n", "\u{a0}x"] {
        assert_eq!(text::trimmed(&chars(sample)), chars(sample.trim()).as_slice());
    }
}

#[test]
fn numbers_are_written_in_decimal() {
    for n in [0, 9, 10, 99, 100, 1234567890, u64::MAX] {
        let mut out = chars("n=");
        text::push_decimal(&mut out, n);
        assert_eq!(text::string_of(&out), format!("n={n}"));
    }
    for n in [0, 7, -7, 1280, i32::MAX, i32::MIN] {
        let mut out = Vec::new();
        text::push_signed_decimal(&mut out, n);
        assert_eq!(text::string_of(&out), n.to_string());
    }
}

#[test]
fn joining_puts_the_separator_between() {
    let samples: [&[&str]; 4] = [&[], &["a"], &["a", "b"], &["", "x", "", "y"]];
    for sample in samples {
        let parts: Vec<Vec<char>> = sample.iter().map(|part| chars(part)).collect();
        assert_eq!(text::string_of(&text::joined(&parts, " <- ")), sample.join(" <- "));
    }
}

#[test]
fn the_order_of_text_is_that_of_strings() {
    let samples = ["", "?", "1", "10", "2", "a", "ab", "b", "é", "\u{ffff}", "\u{10000}"];
    for a in samples {
        for b in samples {
            assert_eq!(text::comes_before(&chars(a), &chars(b)), a < b, "{a} {b}");
            assert_eq!(text::same(&chars(a), &chars(b)), a == b);
        }
    }
}
