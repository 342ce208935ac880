use nockpool_miner::build_info::{short_commit, version_text};
use nockpool_miner::http::is_success;
use nockpool_miner::jam_loader::kernel_path;
use nockpool_miner::noun::Noun;
use nockpool_miner::submission::{NockPoolSubmissionResponseHandler, SubmissionResponse};
use nockpool_miner::text::{decimal_i64, decimal_u64, ends_with, trim, trim_end_matches};

fn response(success: bool) -> SubmissionResponse {
    SubmissionResponse {
        success,
        digest: vec![1, 2],
        message: "bad proof".to_string(),
    }
}

#[test]
fn accepted_proof_needs_nothing() {
    let handler = NockPoolSubmissionResponseHandler::new();
    assert!(handler.handle(response(true)).is_ok());
    assert!(handler.handle_verification_success(&response(true)).is_ok());
}

#[test]
fn refused_proof_forces_a_reconnection() {
    let handler = NockPoolSubmissionResponseHandler::new();
    let e = handler.handle(response(false)).unwrap_err();
    assert_eq!(e.message(), "Verification failed, forcing reconnection: bad proof");
    assert!(handler.handle_verification_failure(&response(false)).is_err());
}

#[test]
fn kernel_path_comes_from_the_environment() {
    assert_eq!(kernel_path(Some("/k.jam".to_string())).unwrap(), "/k.jam");
    assert_eq!(kernel_path(None).unwrap_err().message(), "MINER_JAM_PATH non défini");
}

#[test]
fn version_is_trimmed_output() {
    assert_eq!(version_text(Some(b"v1.2-3-gabc\n".to_vec())), "v1.2-3-gabc");
    assert_eq!(version_text(Some(b" \n".to_vec())), "");
    assert_eq!(version_text(Some("vé\u{3000}".as_bytes().to_vec())), "vé");
    assert_eq!(version_text(Some(vec![0xff, 0xfe])), "unknown");
    assert_eq!(version_text(None), "unknown");
}

#[test]
fn short_commit_has_seven_characters() {
    assert_eq!(short_commit("0123456789abcdef"), "0123456");
    assert_eq!(short_commit("0123456"), "0123456");
    assert_eq!(short_commit("abc"), "abc");
    assert_eq!(short_commit("unknown"), "unknown");
}

#[test]
fn success_is_the_two_hundreds() {
    assert!(is_success(200) && is_success(299));
    assert!(!is_success(199) && !is_success(300) && !is_success(0));
}

#[test]
fn trimming_follows_unicode_white_space() {
    for c in ['\t', '\u{b}', ' ', '\u{85}', '\u{a0}', '\u{1680}', '\u{2000}', '\u{200a}',
        '\u{2028}', '\u{2029}', '\u{202f}', '\u{205f}', '\u{3000}'] {
        assert_eq!(trim(&format!("{}a b{}", c, c)), "a b");
    }
    for c in ['\u{8}', '\u{e}', '\u{1f}', '\u{200b}', '\u{feff}', '\u{180e}'] {
        let s = format!("{}a{}", c, c);
        assert_eq!(trim(&s), s);
        assert_eq!(trim(&s), s.trim());
    }
}

#[test]
fn trim_agrees_with_std_on_every_character() {
    let mut spaces = String::new();
    for u in 0..0x11_0000u32 {
        if let Some(c) = char::from_u32(u) {
            if c.is_whitespace() {
                spaces.push(c);
            }
        }
    }
    assert_eq!(spaces.chars().count(), 25);
    assert_eq!(trim(&spaces), "");
}

#[test]
fn decimals_are_written_like_std() {
    for n in [0, 9, 10, 99, 100, 12345, u64::MAX] {
        assert_eq!(decimal_u64(n), n.to_string());
    }
    for n in [0, -1, -10, i64::MIN, i64::MAX] {
        assert_eq!(decimal_i64(n), n.to_string());
    }
}

#[test]
fn ends_and_trailing_runs() {
    assert!(ends_with("abc", "bc") && ends_with("abc", "") && ends_with("abc", "abc"));
    assert!(!ends_with("bc", "abc") && !ends_with("abd", "bc"));
    assert_eq!(trim_end_matches("a//", '/'), "a");
    assert_eq!(trim_end_matches("//", '/'), "");
    assert_eq!(trim_end_matches("/a", '/'), "/a");
}

#[test]
fn atoms_ignore_zero_bytes_at_their_end() {
    assert!(Noun::text("pool").eq_text("pool"));
    assert!(Noun::Atom(vec![b'p', b'o', b'o', b'l', 0, 0]).eq_text("pool"));
    assert!(!Noun::Atom(vec![b'p', b'o', b'o', b'l', 0, 1]).eq_text("pool"));
    assert!(!Noun::Atom(vec![b'p', b'o', b'o']).eq_text("pool"));
    assert!(!Noun::cell(Noun::text("pool"), Noun::number(0)).eq_text("pool"));
    assert!(Noun::Atom(vec![0, 0]).eq_text(""));
}

#[test]
fn numbers_are_little_endian() {
    match Noun::number(0x0102) {
        Noun::Atom(bytes) => assert_eq!(bytes, vec![2, 1, 0, 0, 0, 0, 0, 0]),
        other => panic!("{:?}", other),
    }
}
