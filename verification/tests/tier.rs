use terminal_snake::render::canvas::{color_tier_for, ColorTier};
use terminal_snake::render::tier::{detect, suppress_sync, Tier};

#[test]
fn colorterm_truecolor_is_full() {
    assert_eq!(detect(Some("truecolor"), None, None, false), Tier::Full);
    assert_eq!(detect(Some("24bit"), None, None, false), Tier::Full);
    assert_eq!(detect(Some("TRUECOLOR"), None, None, false), Tier::Full);
}

#[test]
fn windows_terminal_is_full_even_without_colorterm() {
    assert_eq!(detect(None, None, None, true), Tier::Full);
}

#[test]
fn apple_terminal_is_reduced_not_full() {
    assert_eq!(
        detect(None, Some("xterm-256color"), Some("Apple_Terminal"), false),
        Tier::Reduced
    );
}

#[test]
fn known_truecolor_emulators_are_full() {
    for p in ["iTerm.app", "WezTerm", "ghostty", "kitty", "alacritty"] {
        assert_eq!(
            detect(None, Some("xterm-256color"), Some(p), false),
            Tier::Full,
            "{p}"
        );
    }
}

#[test]
fn plain_256color_is_reduced_and_bare_terminals_are_refused() {
    assert_eq!(
        detect(None, Some("xterm-256color"), None, false),
        Tier::Reduced
    );
    assert_eq!(detect(None, Some("xterm"), None, false), Tier::Refused);
    assert_eq!(detect(None, Some("dumb"), None, false), Tier::Refused);
    assert_eq!(detect(None, None, None, false), Tier::Refused);
}

#[test]
fn direct_colour_terminfo_is_full() {
    assert_eq!(detect(None, Some("xterm-direct"), None, false), Tier::Full);
}

#[test]
fn multiplexers_suppress_synchronized_output() {
    assert!(suppress_sync(Some("tmux-256color"), false));
    assert!(suppress_sync(Some("screen"), false));
    assert!(suppress_sync(Some("xterm-256color"), true));
    assert!(!suppress_sync(Some("xterm-256color"), false));
    assert!(!suppress_sync(None, false));
}

#[test]
fn colorterm_match_is_a_substring_in_any_case() {
    assert_eq!(detect(Some("x-TrueColor-y"), None, None, false), Tier::Full);
    assert_eq!(detect(Some("true"), None, None, false), Tier::Refused);
}

#[test]
fn program_names_match_whole_and_ignore_case() {
    assert_eq!(detect(None, None, Some("KITTY"), false), Tier::Full);
    assert_eq!(detect(None, None, Some("vscode"), false), Tier::Full);
    assert_eq!(detect(None, None, Some("kitty2"), false), Tier::Refused);
}

#[test]
fn term_matching_is_case_sensitive() {
    assert_eq!(detect(None, Some("XTERM-256COLOR"), None, false), Tier::Refused);
    assert_eq!(detect(None, Some("XTERM-DIRECT"), None, false), Tier::Refused);
}

#[test]
fn sync_suppression_needs_a_prefix() {
    assert!(!suppress_sync(Some("xterm-screen"), false));
    assert!(suppress_sync(Some("screen.xterm-256color"), false));
    assert!(!suppress_sync(Some("tmu"), false));
}

#[test]
fn non_ascii_text_does_not_confuse_the_matcher() {
    assert_eq!(detect(Some("é24bité"), None, None, false), Tier::Full);
    assert_eq!(detect(None, Some("ü-256color"), None, false), Tier::Reduced);
}

#[test]
fn only_reduced_terminals_paint_indexed_colour() {
    assert_eq!(color_tier_for(Tier::Reduced), ColorTier::Reduced);
    assert_eq!(color_tier_for(Tier::Full), ColorTier::Full);
    assert_eq!(color_tier_for(Tier::Refused), ColorTier::Full);
}
