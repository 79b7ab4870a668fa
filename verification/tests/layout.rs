use pi_switch::layout::{help_item_key, help_section_text};
use pi_switch::layout::{key_bar_spans, KeyBarPart};
use pi_switch::layout::loading_rect;
use pi_switch::layout::centered_rect;
use pi_switch::layout::{
    centered_rect_fixed, display_width, highlight_symbol, toast_rect, vertically_centered_text,
    wrap_message_lines, Area,
};

fn area(x: u16, y: u16, width: u16, height: u16) -> Area {
    Area { x, y, width, height }
}

#[test]
fn wraps_on_word_boundaries() {
    assert_eq!(wrap_message_lines("hello world foo", 11), vec!["hello world", "foo"]);
    assert_eq!(wrap_message_lines("hello world foo", 80), vec!["hello world foo"]);
    assert_eq!(wrap_message_lines("ab cd", 0), vec!["ab", "cd"]);
    assert_eq!(wrap_message_lines("  spaced   out  ", 80), vec!["spaced out"]);
}

#[test]
fn wrap_keeps_line_breaks_and_never_returns_nothing() {
    assert_eq!(wrap_message_lines("a\n\nb", 10), vec!["a", "", "b"]);
    assert_eq!(wrap_message_lines("a\r\nb", 10), vec!["a", "b"]);
    assert_eq!(wrap_message_lines("", 10), vec![""]);
}

#[test]
fn long_words_stay_whole() {
    assert_eq!(wrap_message_lines("x supercalifragilistic y", 5), vec!["x", "supercalifragilistic", "y"]);
}

#[test]
fn widths_count_terminal_columns() {
    assert_eq!(display_width("héllo"), 5);
    assert_eq!(display_width("日本"), 4);
    assert_eq!(display_width(""), 0);
    assert_eq!(highlight_symbol(true), "> ");
    assert_eq!(highlight_symbol(false), "");
}

#[test]
fn fixed_rects_are_centred_and_clamped() {
    assert_eq!(centered_rect_fixed(10, 4, area(0, 0, 100, 50)), area(45, 23, 10, 4));
    assert_eq!(centered_rect_fixed(200, 100, area(5, 5, 20, 10)), area(5, 5, 20, 10));
    assert_eq!(centered_rect_fixed(3, 3, area(10, 10, 4, 4)), area(10, 10, 3, 3));
}

#[test]
fn text_band_is_vertically_centred() {
    assert_eq!(vertically_centered_text(area(0, 0, 40, 10), "one two", 40), area(0, 4, 40, 1));
    assert_eq!(vertically_centered_text(area(2, 3, 5, 2), "aaa bbb ccc ddd", 5), area(2, 3, 5, 2));
    assert_eq!(vertically_centered_text(area(0, 0, 10, 10), "", 0), area(0, 4, 10, 1));
}

#[test]
fn toasts_fit_their_message() {
    assert_eq!(toast_rect(area(0, 0, 100, 30), "hi"), area(36, 12, 28, 5));
    let long = "word ".repeat(40);
    let r = toast_rect(area(0, 0, 100, 30), long.trim_end());
    assert_eq!(r.width, 72);
    assert!(r.height >= 5 && r.height <= 26);
    let tiny = toast_rect(area(0, 0, 3, 3), "message");
    assert_eq!((tiny.width, tiny.height), (1, 1));
}

#[test]
fn percentage_rects_are_centred() {
    assert_eq!(centered_rect(50, 50, area(0, 0, 100, 100)), area(25, 25, 50, 50));
    assert_eq!(centered_rect(100, 100, area(3, 4, 80, 20)), area(3, 4, 80, 20));
    let r = centered_rect(90, 90, area(0, 0, 120, 40));
    assert!(r.x >= 5 && r.x + r.width <= 115);
    assert!(r.y >= 1 && r.y + r.height <= 39);
}

#[test]
fn loading_box_fits_its_message() {
    assert_eq!(loading_rect(area(0, 0, 100, 30), "Saving"), area(36, 12, 28, 5));
    let long = "x".repeat(100);
    assert_eq!(loading_rect(area(0, 0, 100, 30), &long), area(14, 12, 72, 5));
    let mid = "y".repeat(40);
    assert_eq!(loading_rect(area(0, 0, 100, 30), &mid), area(26, 12, 48, 5));
}

#[test]
fn key_bars_alternate_keys_and_descriptions() {
    let items = vec![("Enter".to_string(), "confirm".to_string()), ("Esc".to_string(), "cancel".to_string())];
    let spans = key_bar_spans(&items);
    assert_eq!(
        spans,
        vec![
            ("Enter ".to_string(), KeyBarPart::Key),
            ("confirm".to_string(), KeyBarPart::Desc),
            ("  ".to_string(), KeyBarPart::Gap),
            ("Esc ".to_string(), KeyBarPart::Key),
            ("cancel".to_string(), KeyBarPart::Desc),
        ]
    );
    assert!(key_bar_spans(&vec![]).is_empty());
}

#[test]
fn wrapped_lines_fit_unless_a_single_word() {
    let msg = "the quick brown fox jumps over the lazy dog\nsupercalifragilistic is long";
    for width in [1u16, 4, 9, 16] {
        for line in wrap_message_lines(msg, width) {
            let words: Vec<&str> = line.split(' ').collect();
            assert!(words.iter().all(|w| !w.is_empty()) || line.is_empty());
            assert!(words.len() <= 1 || display_width(&line) <= width);
        }
    }
}

#[test]
fn overlays_stay_inside_their_area() {
    let content = area(3, 2, 50, 20);
    for msg in ["ok", "a much longer message that has to wrap over several lines of the toast box"] {
        let r = toast_rect(content, msg);
        assert!(r.x >= content.x && r.x + r.width <= content.x + content.width);
        assert!(r.y >= content.y && r.y + r.height <= content.y + content.height);
        let b = vertically_centered_text(content, msg, 20);
        assert!(b.y >= content.y && b.y + b.height <= content.y + content.height);
    }
}

#[test]
fn help_lines_are_indented_and_padded() {
    assert_eq!(help_section_text("Global"), "  Global");
    assert_eq!(help_item_key("q"), format!("    {:<14}", "q"));
    assert_eq!(help_item_key("←→ / h l"), format!("    {:<14}", "←→ / h l"));
    assert_eq!(help_item_key("a-very-long-key-name"), "    a-very-long-key-name");
    assert_eq!(help_item_key(""), " ".repeat(18));
}

#[test]
fn wrapping_keeps_every_word_in_order() {
    let msg = "alpha  beta\tgamma delta-epsilon\n\nzeta eta theta iota kappa";
    for width in [1u16, 5, 12, 40] {
        let wrapped = wrap_message_lines(msg, width);
        let out: Vec<&str> = wrapped.iter().flat_map(|l| l.split_whitespace()).collect();
        let words: Vec<&str> = msg.split_whitespace().collect();
        assert_eq!(out, words);
    }
}
