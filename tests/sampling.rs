use blazecut::commands::{
    frame_args, frame_file_name, id_from_millis, keyframe_dir_name, probe_args, random_id,
    thumbnail_args, thumbnail_dir_name, thumbnail_file_name,
};
use blazecut::sampling::{sample_positions, seek_argument, Timestamp};

#[test]
fn positions_of_two_minutes_in_three() {
    let p = sample_positions(120_000_000, 3);
    let seeks: Vec<String> = p.iter().map(seek_argument).collect();
    assert_eq!(seeks, vec!["30.000000", "60.000000", "90.000000"]);
    let micros: Vec<u128> = p.iter().map(|t| t.numer / t.denom as u128).collect();
    assert_eq!(micros, vec![30_000_000, 60_000_000, 90_000_000]);
}

#[test]
fn positions_increase_inside_the_video() {
    let d: u64 = 10_000_001;
    let n: u32 = 7;
    let p = sample_positions(d, n);
    assert_eq!(p.len(), 7);
    for (i, t) in p.iter().enumerate() {
        assert_eq!(t.numer, d as u128 * (i as u128 + 1));
        assert_eq!(t.denom, 8);
        assert!(t.numer > 0 && t.numer < d as u128 * t.denom as u128);
    }
    for w in p.windows(2) {
        assert!(w[0].numer * (w[1].denom as u128) < w[1].numer * (w[0].denom as u128));
    }
}

#[test]
fn no_positions_for_no_frames() {
    assert!(sample_positions(120_000_000, 0).is_empty());
}

#[test]
fn largest_positions_fit() {
    let p = sample_positions(u64::MAX, 2);
    assert_eq!(p[1].numer, u64::MAX as u128 * 2);
    assert_eq!(p[1].denom, 3);
}

#[test]
fn seek_text_rounds_down_to_microseconds() {
    assert_eq!(seek_argument(&Timestamp { numer: 10, denom: 3 }), "0.000003");
    assert_eq!(seek_argument(&Timestamp { numer: 100_000_000, denom: 3 }), "33.333333");
    assert_eq!(seek_argument(&Timestamp { numer: 0, denom: 1 }), "0.000000");
}

#[test]
fn probe_command_line() {
    assert_eq!(
        probe_args("/v/a.mp4"),
        vec!["-v", "quiet", "-print_format", "json", "-show_format", "-show_streams", "/v/a.mp4"]
    );
}

#[test]
fn frame_command_line() {
    let at = Timestamp { numer: 61_500_000, denom: 1 };
    assert_eq!(
        frame_args(&at, "in.mp4", "/tmp/frame_1.jpg"),
        vec![
            "-ss", "61.500000", "-i", "in.mp4", "-vframes", "1", "-q:v", "2", "-f", "image2",
            "/tmp/frame_1.jpg"
        ]
    );
}

#[test]
fn thumbnail_command_line() {
    assert_eq!(
        thumbnail_args("in.mp4", "out.jpg"),
        vec![
            "-ss", "15%", "-i", "in.mp4", "-vframes", "1", "-vf", "scale=320:-1", "-q:v", "2",
            "-f", "image2", "out.jpg"
        ]
    );
}

#[test]
fn output_file_names() {
    assert_eq!(frame_file_name(1), "frame_1.jpg");
    assert_eq!(frame_file_name(12), "frame_12.jpg");
    assert_eq!(thumbnail_file_name("1700000000123"), "thumb_1700000000123.jpg");
    assert_eq!(keyframe_dir_name(), "blazecut_keyframes");
    assert_eq!(thumbnail_dir_name(), "blazecut_thumbnails");
}

#[test]
fn ids_are_decimal_millis() {
    assert_eq!(id_from_millis(0), "0");
    assert_eq!(id_from_millis(1_700_000_000_123), "1700000000123");
    assert_eq!(id_from_millis(u64::MAX as u128), "18446744073709551615");
    assert_eq!(id_from_millis(u128::MAX), "340282366920938463463374607431768211455");
    let id = random_id().unwrap();
    assert!(!id.is_empty());
    assert!(id.chars().all(|c| c.is_ascii_digit()));
    assert!(id.parse::<u64>().unwrap() > 1_600_000_000_000);
}
