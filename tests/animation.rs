use strider::loading_animation::LoadingAnimation;
use strider::style::{bold, styled_text, GRAY_LIGHT, WHITE};

fn texts() -> Option<Vec<&'static str>> {
    Some(vec!["Scanning folder", "Scanning", "S"])
}

#[test]
fn lengths_add_room_for_dots() {
    let a = LoadingAnimation::new(&texts(), 0);
    assert_eq!(a.full_len(), 18);
    assert_eq!(a.mid_len(), 11);
    assert_eq!(a.short_len(), 4);
}

#[test]
fn lengths_fall_back_to_longer_texts() {
    let a = LoadingAnimation::new(&Some(vec!["Scanning"]), 1);
    assert_eq!(a.full_len(), 11);
    assert_eq!(a.mid_len(), 11);
    assert_eq!(a.short_len(), 11);
    let none = LoadingAnimation::new(&None, 1);
    assert_eq!(none.full_len(), 0);
    assert_eq!(none.short_len(), 0);
    assert_eq!(none.render_mid_length(), "");
    let empty = LoadingAnimation::new(&Some(vec![]), 1);
    assert_eq!(empty.mid_len(), 0);
    assert_eq!(empty.render_full_length(), "");
}

#[test]
fn style_sequences() {
    assert_eq!(bold("x"), "\u{1b}[1mx\u{1b}[m");
    assert_eq!(styled_text(7, 238, "t"), "\u{1b}[38;5;7;48;5;238mt\u{1b}[m");
    assert_eq!(GRAY_LIGHT, 238);
    assert_eq!(WHITE, 255);
}

#[test]
fn render_draws_dots_of_the_frame() {
    let a = LoadingAnimation::new(&texts(), 6);
    assert_eq!(
        a.render_full_length(),
        "\u{1b}[38;5;255;48;5;238m\u{1b}[1mScanning folder..\u{1b}[m\u{1b}[m"
    );
    assert_eq!(
        a.render_mid_length(),
        "\u{1b}[38;5;238;48;5;255m\u{1b}[1mScanning..\u{1b}[m\u{1b}[m"
    );
    let b = LoadingAnimation::new(&texts(), 4);
    assert_eq!(b.render_short_length(), "\u{1b}[38;5;238;48;5;255m\u{1b}[1mS\u{1b}[m\u{1b}[m");
    let c = LoadingAnimation::new(&Some(vec!["Sc"]), 3);
    assert_eq!(c.render_short_length(), "\u{1b}[38;5;238;48;5;255m\u{1b}[1mSc...\u{1b}[m\u{1b}[m");
}
