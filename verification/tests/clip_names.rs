use fast_dedup::clip::{strip_audio_extension, strip_extension_found_in};

#[test]
fn strips_known_audio_extensions() {
    assert_eq!(strip_audio_extension("take one.wav"), "take one");
    assert_eq!(strip_audio_extension("Interview.FLAC"), "Interview");
    assert_eq!(strip_audio_extension("song.Mp3"), "song");
    assert_eq!(strip_audio_extension("a.aac"), "a");
    assert_eq!(strip_audio_extension("a.ogg"), "a");
    assert_eq!(strip_audio_extension("a.wma"), "a");
    assert_eq!(strip_audio_extension("a.m4a"), "a");
    assert_eq!(strip_audio_extension("a.aiff"), "a");
    assert_eq!(strip_audio_extension("a.aif"), "a");
}

#[test]
fn keeps_names_without_audio_extension() {
    assert_eq!(strip_audio_extension("clip.mov"), "clip.mov");
    assert_eq!(strip_audio_extension("wav"), "wav");
    assert_eq!(strip_audio_extension(""), "");
    assert_eq!(strip_audio_extension("a.wav.txt"), "a.wav.txt");
}

#[test]
fn strips_only_one_extension() {
    assert_eq!(strip_audio_extension("a.mp3.wav"), "a.mp3");
    assert_eq!(strip_audio_extension(".wav"), "");
}

#[test]
fn keeps_non_ascii_stem() {
    assert_eq!(strip_audio_extension("录音.WAV"), "录音");
}

#[test]
fn lowercase_form_decides_the_match() {
    assert_eq!(strip_extension_found_in("abcdefgh", "abcd.wav"), "abcd");
    assert_eq!(strip_extension_found_in("ab", "ab.wav"), "ab");
    assert_eq!(strip_extension_found_in("a.wav", "a.txt"), "a.wav");
    // the cut would split the two bytes of 'é'
    assert_eq!(strip_extension_found_in("aaaé123", "x.wav"), "aaaé123");
}
