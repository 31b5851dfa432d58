use rustream::subtitles::{convert, is_subrip, srt_to_vtt};

#[test]
fn srt_blocks_become_vtt_cues() {
    let srt = "1\n00:00:01,000 --> 00:00:02,500\nHello, world\n\n2\n00:00:03,000 --> 00:00:04,000\nTwo\nlines\n\n";
    let vtt = convert(srt).unwrap();
    assert_eq!(
        vtt,
        "WEBVTT\n\n00:00:01.000-->00:00:02.500\nHello. world\n\n00:00:03.000-->00:00:04.000\nTwo\nlines\n\n"
    );
}

#[test]
fn srt_block_without_text_keeps_an_empty_line() {
    assert_eq!(convert("1\n00:00:01,000 --> 00:00:02,000").unwrap(), "WEBVTT\n\n00:00:01.000-->00:00:02.000\n\n\n");
}

#[test]
fn srt_with_a_block_of_one_line_cannot_be_converted() {
    assert_eq!(convert("1\n00:00:01,000 --> 00:00:02,000\nx\n\nstray"), None);
    assert_eq!(convert(""), None);
}

#[test]
fn only_srt_files_are_converted() {
    assert!(is_subrip("/M/a/film.srt"));
    assert!(!is_subrip("/M/a/film.vtt"));
    assert!(!is_subrip("/M/a.srt/film"));
    assert!(!is_subrip("/M/a/.srt"));
    assert!(srt_to_vtt("/M/a/film.mp4", "whatever").unwrap().is_none());
    let file = srt_to_vtt("/M/a.b/film.srt", "1\nt\nx").unwrap().unwrap();
    assert_eq!(file.path, "/M/a.b/film.vtt");
    assert_eq!(file.content, "WEBVTT\n\nt\nx\n\n");
    assert_eq!(
        srt_to_vtt("film.srt", "lonely").err(),
        Some(String::from("Error converting file: a subtitle block has fewer than two lines"))
    );
}
