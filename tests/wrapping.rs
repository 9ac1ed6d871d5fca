use meme_caption::words::split_words;
use meme_caption::wrap::wrap_words;

fn widths_per_char(words: &Vec<String>, px: u32) -> Vec<u32> {
    words.iter().map(|w| px * w.chars().count() as u32).collect()
}

fn wrap_at(text: &str, px: u32, max_width: u32) -> Vec<String> {
    let words = split_words(text);
    let widths = widths_per_char(&words, px);
    wrap_words(&words, &widths, max_width)
}

#[test]
fn split_keeps_empty_pieces() {
    assert_eq!(split_words("a b"), vec!["a".to_string(), "b".to_string()]);
    assert_eq!(split_words("a  b"), vec!["a".to_string(), String::new(), "b".to_string()]);
    assert_eq!(split_words(" a "), vec![String::new(), "a".to_string(), String::new()]);
    assert_eq!(split_words(""), vec![String::new()]);
    assert_eq!(split_words("tab\tand\nnewline"), vec!["tab\tand\nnewline".to_string()]);
}

#[test]
fn short_text_is_one_line() {
    let wrapped = wrap_at("Hello World!", 12, 500);
    assert_eq!(wrapped.len(), 1);
    assert_eq!(wrapped[0], "Hello World!".to_owned());
}

#[test]
fn empty_text_is_one_empty_line() {
    let wrapped = wrap_at("", 12, 500);
    assert_eq!(wrapped, vec![String::new()]);
}

#[test]
fn long_text_takes_three_lines() {
    let text = "Some very very long text that will most likely need some wrapping to fit it into the required width";
    let wrapped = wrap_at(text, 14, 500);
    assert_eq!(
        wrapped,
        vec![
            "Some very very long text that will most ".to_string(),
            "likely need some wrapping to fit it into ".to_string(),
            "the required width".to_string(),
        ]
    );
    for line in &wrapped {
        let words: Vec<&str> = line.trim_end_matches(' ').split(' ').collect();
        let letters: usize = words.iter().map(|w| w.chars().count()).sum();
        assert!(14 * letters as u32 + 5 * (words.len() as u32 - 1) < 500);
    }
}

#[test]
fn oversized_word_stands_alone() {
    let words = vec!["huge".to_string()];
    let wrapped = wrap_words(&words, &vec![600], 500);
    assert_eq!(wrapped, vec![String::new(), "huge".to_string()]);
    let words = vec!["a".to_string(), "huge".to_string(), "b".to_string()];
    let wrapped = wrap_words(&words, &vec![10, 600, 10], 500);
    assert_eq!(wrapped, vec!["a ".to_string(), "huge ".to_string(), "b".to_string()]);
}

#[test]
fn padding_counts_after_each_word() {
    let words = vec!["a".to_string(), "b".to_string(), "c".to_string()];
    // 10 < 30, then 10 < 15, then 10 < 0 fails: the free width is clamped at zero.
    let wrapped = wrap_words(&words, &vec![10, 10, 10], 30);
    assert_eq!(wrapped, vec!["a b ".to_string(), "c".to_string()]);
    // A word exactly as wide as the free width does not fit.
    let wrapped = wrap_words(&words, &vec![10, 15, 10], 30);
    assert_eq!(wrapped, vec!["a ".to_string(), "b ".to_string(), "c".to_string()]);
}

#[test]
fn repeated_spaces_give_empty_words() {
    let wrapped = wrap_at("a  b", 10, 100);
    assert_eq!(wrapped, vec!["a  b".to_string()]);
}

#[test]
fn no_words_give_one_empty_line() {
    let wrapped = wrap_words(&Vec::new(), &Vec::new(), 100);
    assert_eq!(wrapped, vec![String::new()]);
}

#[test]
fn zero_width_puts_every_word_on_its_own_line() {
    let wrapped = wrap_at("a b", 10, 0);
    assert_eq!(wrapped, vec![String::new(), "a ".to_string(), "b".to_string()]);
}

#[test]
fn narrower_width_never_gives_fewer_lines() {
    let text = "Some very very long text that will most likely need some wrapping to fit it into the required width";
    let mut previous = 0;
    for max_width in [2000u32, 1000, 700, 500, 300, 100, 50, 0] {
        let n = wrap_at(text, 14, max_width).len();
        assert!(n >= previous);
        previous = n;
    }
}

#[test]
fn lines_of_several_words_fit() {
    let text = "Some very very long text that will most likely need some wrapping to fit it into the required width";
    for max_width in [500u32, 300, 120] {
        for line in wrap_at(text, 14, max_width) {
            let words: Vec<&str> = line.trim_end_matches(' ').split(' ').collect();
            let width: u32 = words.iter().map(|w| 14 * w.chars().count() as u32).sum::<u32>()
                + 5 * (words.len() as u32 - 1);
            let widest = words.iter().map(|w| 14 * w.chars().count() as u32).max().unwrap();
            assert!(width <= max_width + widest);
            if words.len() >= 2 {
                assert!(width < max_width);
            }
        }
    }
}

#[test]
fn single_line_rewraps_to_itself() {
    let wrapped = wrap_at("Hello World!", 12, 500);
    let again = wrap_at(&wrapped.join(" "), 12, 500);
    assert_eq!(again, wrapped);
}
