use audio_fingerprint::clock::{
    generate_unique_id, unique_id_from_millis, unique_id_from_reading,
};
use audio_fingerprint::error::{append_decimal, digit_to_char, MatchError, ShazamError};
use audio_fingerprint::filename::{is_reserved_char, replace_reserved, sanitize_filename};
use audio_fingerprint::multipart::{chars_of, find_from, multipart_boundary, trim_part};
use audio_fingerprint::random::random_string;
use audio_fingerprint::samples::decode_words;

#[test]
fn a_signal_failure_is_shown_with_its_stage() {
    assert_eq!(
        ShazamError::DownsampleError("too short".to_string()).message(),
        "Downsample error: too short"
    );
    assert_eq!(
        ShazamError::InvalidSampleRate("zero".to_string()).message(),
        "Invalid sample rate: zero"
    );
    assert_eq!(ShazamError::FftError("length".to_string()).message(), "FFT error: length");
    assert_eq!(ShazamError::FftError(String::new()).message(), "FFT error: ");
}

#[test]
fn a_query_failure_is_shown_with_its_kind() {
    assert_eq!(
        MatchError::SpectrogramError("FFT error: length".to_string()).message(),
        "Spectrogram error: FFT error: length"
    );
    assert_eq!(MatchError::DatabaseError("gone".to_string()).message(), "Database error: gone");
    assert_eq!(MatchError::SongNotFound(42).message(), "Song not found: 42");
    assert_eq!(MatchError::SongNotFound(0).message(), "Song not found: 0");
    assert_eq!(MatchError::SongNotFound(-7).message(), "Song not found: -7");
}

#[test]
fn a_signal_failure_becomes_a_spectrogram_error() {
    let failure = ShazamError::DownsampleError("odd".to_string());
    match MatchError::from_signal_failure(&failure) {
        MatchError::SpectrogramError(message) => assert_eq!(message, "Downsample error: odd"),
        _ => panic!("not a spectrogram error"),
    }
}

#[test]
fn integers_are_written_in_decimal() {
    for value in [0i64, 9, 10, 11, 99, 100, 12_345, -1, -10, -12_345, i64::MAX, i64::MIN] {
        let mut text = String::from("id ");
        append_decimal(&mut text, value);
        assert_eq!(text, format!("id {}", value));
    }
    assert_eq!(digit_to_char(0), '0');
    assert_eq!(digit_to_char(9), '9');
}

#[test]
fn reserved_characters_become_underscores() {
    assert_eq!(replace_reserved("a/b\\c:d*e?f\"g<h>i|j"), "a_b_c_d_e_f_g_h_i_j");
    assert_eq!(replace_reserved("track 01.final.mp3"), "track 01.final.mp3");
    assert_eq!(replace_reserved(""), "");
    assert_eq!(replace_reserved("größe?.wav"), "größe_.wav");
    assert!(is_reserved_char('|'));
    assert!(!is_reserved_char('.'));
    assert!(!is_reserved_char('_'));
}

#[test]
fn a_file_name_is_reduced_to_its_last_component() {
    assert_eq!(sanitize_filename("song.mp3"), "song.mp3");
    assert_eq!(sanitize_filename("../../etc/passwd"), "passwd");
    assert_eq!(sanitize_filename("/tmp/upload/a:b*c.mp3"), "a_b_c.mp3");
    assert_eq!(sanitize_filename("dir/"), "dir");
}

#[test]
fn a_file_name_without_a_last_component_is_unnamed() {
    assert_eq!(sanitize_filename(""), "unnamed");
    assert_eq!(sanitize_filename("/"), "unnamed");
    assert_eq!(sanitize_filename(".."), "unnamed");
    assert_eq!(sanitize_filename("a/.."), "unnamed");
}

#[test]
fn a_random_text_has_the_length_asked_for_and_only_letters_and_digits() {
    assert_eq!(random_string(0), "");
    for length in [1usize, 5, 64, 1000] {
        let text = random_string(length);
        assert_eq!(text.chars().count(), length);
        assert!(text.chars().all(|c| c.is_ascii_alphanumeric()));
    }
}

#[test]
fn random_texts_differ() {
    assert_ne!(random_string(32), random_string(32));
}

#[test]
fn an_identifier_is_the_low_bits_of_the_milliseconds() {
    assert_eq!(unique_id_from_millis(0), 0);
    assert_eq!(unique_id_from_millis(1_700_000_000_000), 1_700_000_000_000);
    assert_eq!(unique_id_from_millis(i64::MAX as u128), i64::MAX);
    assert_eq!(unique_id_from_millis(1u128 << 63), i64::MIN);
    assert_eq!(unique_id_from_millis((1u128 << 64) + 5), 5);
    assert_eq!(unique_id_from_millis(u128::MAX), -1);
}

#[test]
fn the_clock_gives_an_identifier_after_the_epoch() {
    assert!(generate_unique_id() > 1_600_000_000_000);
}

#[test]
fn sample_words_are_read_least_significant_byte_first() {
    assert_eq!(decode_words(&[0x78, 0x56, 0x34, 0x12]), vec![0x1234_5678]);
    assert_eq!(
        decode_words(&[0, 0, 0x80, 0x3f, 0xff, 0xff, 0xff, 0xff, 1, 2, 3]),
        vec![0x3f80_0000, 0xffff_ffff]
    );
    assert!(decode_words(&[]).is_empty());
    assert!(decode_words(&[1, 2, 3]).is_empty());
    assert_eq!(f32::from_bits(decode_words(&[0, 0, 0x80, 0x3f])[0]), 1.0);
}

#[test]
fn the_boundary_follows_its_key_and_is_trimmed() {
    assert_eq!(
        multipart_boundary("multipart/form-data; boundary=----abc123"),
        Some("----abc123".to_string())
    );
    assert_eq!(
        multipart_boundary("multipart/form-data; boundary= xyz \t"),
        Some("xyz".to_string())
    );
    assert_eq!(multipart_boundary("boundary="), Some(String::new()));
    assert_eq!(multipart_boundary("boundary=\u{a0}a b\u{2003}"), Some("a b".to_string()));
}

#[test]
fn the_boundary_ends_at_the_next_key() {
    assert_eq!(
        multipart_boundary("a boundary=X boundary=Y"),
        Some("X".to_string())
    );
    assert_eq!(multipart_boundary("boundary=boundary=Y"), Some(String::new()));
}

#[test]
fn a_content_type_without_the_key_has_no_boundary() {
    assert_eq!(multipart_boundary("multipart/form-data"), None);
    assert_eq!(multipart_boundary(""), None);
    assert_eq!(multipart_boundary("Boundary=abc"), None);
    assert_eq!(multipart_boundary("boundary"), None);
}

#[test]
fn a_pattern_is_found_at_its_first_place_from_the_start_given() {
    let text = chars_of("abcabcab");
    let pattern = chars_of("abc");
    assert_eq!(text.len(), 8);
    assert_eq!(find_from(&text, &pattern, 0), Some(0));
    assert_eq!(find_from(&text, &pattern, 1), Some(3));
    assert_eq!(find_from(&text, &pattern, 4), None);
    assert_eq!(find_from(&text, &pattern, 100), None);
    assert_eq!(find_from(&pattern, &text, 0), None);
    assert_eq!(find_from(&text, &Vec::new(), 8), Some(8));
}

#[test]
fn a_part_is_copied_without_the_white_space_at_its_ends() {
    let text = chars_of("[  a b  ]");
    assert_eq!(trim_part(&text, 1, 8), "a b");
    assert_eq!(trim_part(&text, 1, 3), "");
    assert_eq!(trim_part(&text, 0, 9), "[  a b  ]");
    assert_eq!(trim_part(&text, 4, 4), "");
}

#[test]
fn a_reading_before_the_epoch_stands_for_zero() {
    assert_eq!(unique_id_from_reading(None), 0);
    assert_eq!(unique_id_from_reading(Some(0)), 0);
    assert_eq!(unique_id_from_reading(Some(1_700_000_000_123)), 1_700_000_000_123);
    assert_eq!(unique_id_from_reading(Some((1u128 << 64) + 9)), 9);
}

fn is_listed_white_space(c: char) -> bool {
    matches!(
        c as u32,
        0x0009..=0x000d
            | 0x0020
            | 0x0085
            | 0x00a0
            | 0x1680
            | 0x2000..=0x200a
            | 0x2028
            | 0x2029
            | 0x202f
            | 0x205f
            | 0x3000
    )
}

#[test]
fn exactly_the_listed_characters_are_trimmed_as_white_space() {
    let mut listed = 0;
    for code in 0..=0x10ffffu32 {
        if let Some(c) = char::from_u32(code) {
            let trimmed = trim_part(&vec![c], 0, 1);
            assert_eq!(trimmed.is_empty(), is_listed_white_space(c), "U+{:04X}", code);
            if trimmed.is_empty() {
                listed += 1;
            }
        }
    }
    assert_eq!(listed, 25);
}

#[test]
fn a_sanitized_name_is_never_the_parent_directory() {
    for name in ["..", "../..", "a/..", "/..", "x/../..", "..\\.."] {
        assert_ne!(sanitize_filename(name), "..");
    }
    assert_eq!(sanitize_filename("..."), "...");
    assert_eq!(sanitize_filename("a/..b"), "..b");
}

#[test]
fn a_sanitized_name_comes_from_the_text_given_or_is_unnamed() {
    for name in ["song.mp3", "dir/sub/track 7.wav", "/abs/a:b.mp3", "dir/", "a//b//", ""] {
        let clean = sanitize_filename(name);
        let restored: Vec<String> = (0..=name.len())
            .filter(|i| name.is_char_boundary(*i))
            .flat_map(|i| {
                (i..=name.len())
                    .filter(|j| name.is_char_boundary(*j))
                    .map(move |j| replace_reserved(&name[i..j]))
            })
            .collect();
        assert!(clean == "unnamed" || restored.contains(&clean), "{}", name);
    }
}
