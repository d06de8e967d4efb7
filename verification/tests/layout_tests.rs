use audio_fingerprint::decimation::Decimation;
use audio_fingerprint::error::ShazamError;
use audio_fingerprint::frames::{audio_duration_us, frame_count, frame_span, plan_spectrogram};

fn complaint(result: Result<Decimation, ShazamError>) -> String {
    match result {
        Err(ShazamError::InvalidSampleRate(message)) => message,
        _ => panic!("the rates were not refused"),
    }
}

#[test]
fn a_target_rate_of_zero_is_refused() {
    assert_eq!(complaint(Decimation::plan(100, 8, 0)), "Sample rates must be positive");
}

#[test]
fn an_original_rate_of_zero_is_refused() {
    assert_eq!(complaint(Decimation::plan(100, 0, 4)), "Sample rates must be positive");
    assert_eq!(complaint(Decimation::plan(100, 0, 0)), "Sample rates must be positive");
}

#[test]
fn a_target_rate_above_the_original_is_refused() {
    assert_eq!(
        complaint(Decimation::plan(100, 4, 8)),
        "Target sample rate must be less than or equal to original sample rate"
    );
}

#[test]
fn halving_the_rate_halves_the_length_rounded_up() {
    for len in 0..40usize {
        let plan = Decimation::plan(len, 8, 4).unwrap();
        assert_eq!(plan.ratio, 2);
        assert_eq!(plan.output_len(), (len + 1) / 2);
    }
}

#[test]
fn the_ratio_is_the_quotient_of_the_rates_rounded_down() {
    assert_eq!(Decimation::plan(10, 44_100, 11_025).unwrap().ratio, 4);
    assert_eq!(Decimation::plan(10, 7, 2).unwrap().ratio, 3);
    assert_eq!(Decimation::plan(10, 5, 5).unwrap().ratio, 1);
    assert_eq!(Decimation::plan(10, 5, 3).unwrap().ratio, 1);
}

#[test]
fn the_blocks_tile_the_input_and_the_last_may_be_short() {
    let plan = Decimation::plan(10, 12, 4).unwrap();
    assert_eq!(plan.output_len(), 4);
    assert_eq!(plan.block(0), (0, 3));
    assert_eq!(plan.block(1), (3, 6));
    assert_eq!(plan.block(2), (6, 9));
    assert_eq!(plan.block(3), (9, 10));
    let plan = Decimation::plan(9, 12, 4).unwrap();
    assert_eq!(plan.output_len(), 3);
    assert_eq!(plan.block(2), (6, 9));
    assert_eq!(Decimation::plan(0, 12, 4).unwrap().output_len(), 0);
    let plan = Decimation::plan(usize::MAX, usize::MAX, 1).unwrap();
    assert_eq!(plan.output_len(), 1);
    assert_eq!(plan.block(0), (0, usize::MAX));
}

#[test]
fn frames_are_counted_by_the_frame_size_less_the_hop() {
    assert_eq!(frame_count(0), 0);
    assert_eq!(frame_count(991), 0);
    assert_eq!(frame_count(992), 1);
    assert_eq!(frame_count(1983), 1);
    assert_eq!(frame_count(1984), 2);
    assert_eq!(frame_count(99_200), 100);
}

#[test]
fn frames_start_a_hop_apart_and_are_a_frame_long() {
    assert_eq!(frame_span(99_200, 0), (0, 1024));
    assert_eq!(frame_span(99_200, 1), (32, 1056));
    assert_eq!(frame_span(99_200, 99), (3168, 4192));
    assert_eq!(frame_span(1984, 1), (32, 1056));
}

#[test]
fn a_signal_shorter_than_a_frame_gives_one_short_frame() {
    assert_eq!(frame_span(992, 0), (0, 992));
    assert_eq!(frame_span(1023, 0), (0, 1023));
    assert_eq!(frame_span(1024, 0), (0, 1024));
}

#[test]
fn a_spectrogram_is_laid_out_at_a_quarter_of_the_rate() {
    let plan = plan_spectrogram(441_000, 44_100).unwrap();
    assert_eq!(plan.decimation.ratio, 4);
    assert_eq!(plan.decimation.input_len, 441_000);
    assert_eq!(plan.decimated_len, 110_250);
    assert_eq!(plan.frames, 111);
    let plan = plan_spectrogram(7_001, 7).unwrap();
    assert_eq!(plan.decimation.ratio, 7);
    assert_eq!(plan.decimated_len, 1_001);
    assert_eq!(plan.frames, 1);
}

#[test]
fn a_rate_below_four_cannot_be_laid_out() {
    for rate in 0..4usize {
        match plan_spectrogram(1000, rate) {
            Err(ShazamError::InvalidSampleRate(message)) => {
                assert_eq!(message, "Sample rates must be positive")
            }
            _ => panic!("the rate was not refused"),
        }
    }
    assert!(plan_spectrogram(1000, 4).is_ok());
}

#[test]
fn the_duration_is_the_sample_count_over_the_rate() {
    assert_eq!(audio_duration_us(0, 44_100), 0);
    assert_eq!(audio_duration_us(44_100, 44_100), 1_000_000);
    assert_eq!(audio_duration_us(1, 3), 333_333);
    assert_eq!(audio_duration_us(441_000, 44_100), 10_000_000);
    assert_eq!(audio_duration_us(usize::MAX, 1), u64::MAX);
}
