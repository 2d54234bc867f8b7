//! Tests of the base64 codec and the command-line helpers.

use calcbot::codec::{b64v, base64_decode, base64_encode};
use calcbot::command::{find_char, help_content, parse_cmd, rps_result, str_eq, trim_str};
use calcbot::state::{GuessOutcome, NumberGame};

#[test]
fn encode_known_vectors() {
    assert_eq!(base64_encode(b""), "");
    assert_eq!(base64_encode(b"f"), "Zg==");
    assert_eq!(base64_encode(b"fo"), "Zm8=");
    assert_eq!(base64_encode(b"foo"), "Zm9v");
    assert_eq!(base64_encode(b"hello"), "aGVsbG8=");
}

#[test]
fn decode_undoes_encode() {
    let texts = ["", "a", "ab", "abc", "hello world", "base64 round trip!"];
    for t in texts {
        let encoded = base64_encode(t.as_bytes());
        assert_eq!(base64_decode(&encoded), Ok(t.to_string()));
    }
}

#[test]
fn decode_without_padding() {
    assert_eq!(base64_decode("aGVsbG8"), Ok("hello".to_string()));
}

#[test]
fn decode_ignores_stray_bytes_in_chunk() {
    // The space is no alphabet byte; the chunk still has enough values.
    assert_eq!(base64_decode("Zm 9v"), Ok("fo".to_string()));
}

#[test]
fn decode_of_non_utf8_fails() {
    let encoded = base64_encode(&[0xff, 0xfe]);
    assert_eq!(base64_decode(&encoded), Err(()));
}

#[test]
fn alphabet_values() {
    assert_eq!(b64v(b'A'), Some(0));
    assert_eq!(b64v(b'Z'), Some(25));
    assert_eq!(b64v(b'a'), Some(26));
    assert_eq!(b64v(b'z'), Some(51));
    assert_eq!(b64v(b'0'), Some(52));
    assert_eq!(b64v(b'9'), Some(61));
    assert_eq!(b64v(b'+'), Some(62));
    assert_eq!(b64v(b'/'), Some(63));
    assert_eq!(b64v(b'='), None);
    assert_eq!(b64v(b' '), None);
}

#[test]
fn parse_cmd_plain_command() {
    assert_eq!(parse_cmd("/start"), ("/start", ""));
}

#[test]
fn parse_cmd_with_bot_suffix_and_args() {
    assert_eq!(parse_cmd("/help@mybot args here"), ("/help", "args here"));
}

#[test]
fn parse_cmd_non_command_text() {
    assert_eq!(parse_cmd("hello there"), ("", "hello there"));
}

#[test]
fn parse_cmd_trims_whitespace() {
    assert_eq!(parse_cmd("  /echo   hi  "), ("/echo", "hi"));
    assert_eq!(parse_cmd("\n/calc 2+2\n"), ("/calc", "2+2"));
}

#[test]
fn trim_and_find_helpers() {
    assert_eq!(trim_str("  a b\t"), "a b");
    assert_eq!(trim_str("   "), "");
    assert_eq!(find_char("ab cd", ' '), 2);
    assert_eq!(find_char("abcd", ' '), 4);
    assert!(str_eq("same", "same"));
    assert!(!str_eq("same", "sane"));
    assert!(!str_eq("same", "sam"));
}

#[test]
fn help_sections_have_titles() {
    assert!(help_content("fun").0.contains("Fun Commands"));
    assert!(help_content("util").1.contains("/calc"));
    assert!(help_content("admin").0.contains("Admin Commands"));
    assert!(help_content("games").1.contains("/guess"));
    assert!(help_content("notes").1.contains("/save"));
    assert!(help_content("polls").1.contains("/poll"));
    assert_eq!(help_content("info").0, help_content("about").0);
    assert!(help_content("anything else").0.contains("Command Categories"));
}

#[test]
fn rps_reply_names_both_moves() {
    for player in ["rock", "scissors", "paper"] {
        let reply = rps_result(player);
        assert!(reply.starts_with("You: "));
        assert!(reply.contains("  vs  Bot: "));
        assert!(
            reply.ends_with("It's a tie!")
                || reply.ends_with("You win!")
                || reply.ends_with("Bot wins!")
        );
    }
}

#[test]
fn bot_state_starts_empty() {
    let state = calcbot::state::BotState::default();
    assert!(state.warnings.is_empty());
    assert!(state.notes.is_empty());
    assert!(state.games.is_empty());
}

#[test]
fn guess_game_steps() {
    let mut g = NumberGame::start(7, "Player".to_string());
    assert!((1..=100).contains(&g.secret));
    assert_eq!(g.attempts, 0);
    assert_eq!(g.max_attempts, 7);
    let secret = g.secret;
    let wrong_low = if secret > 1 { secret - 1 } else { secret + 1 };
    let outcome = g.guess_step(wrong_low);
    assert_eq!(g.attempts, 1);
    if wrong_low < secret {
        assert_eq!(outcome, GuessOutcome::TooLow);
    } else {
        assert_eq!(outcome, GuessOutcome::TooHigh);
    }
    assert_eq!(g.guess_step(secret), GuessOutcome::Correct);
    assert_eq!(g.attempts, 2);
}

#[test]
fn guess_game_runs_out_of_attempts() {
    let mut g = NumberGame::start(1, "P".to_string());
    let wrong = if g.secret > 1 { g.secret - 1 } else { g.secret + 1 };
    for _ in 0..6 {
        let o = g.guess_step(wrong);
        assert!(o == GuessOutcome::TooLow || o == GuessOutcome::TooHigh);
    }
    assert_eq!(g.guess_step(wrong), GuessOutcome::OutOfAttempts);
    assert_eq!(g.attempts, 7);
}

#[test]
fn progress_bar_shapes() {
    assert_eq!(calcbot::text::progress_bar(2, 7), "\u{2588}\u{2588}\u{2591}\u{2591}\u{2591}\u{2591}\u{2591}");
    assert_eq!(calcbot::text::progress_bar(0, 0), "");
}
