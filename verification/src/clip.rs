//! Clip names.
//!
//! An edit decision list names each clip after the media file it was cut
//! from. For display the audio extension of that file is dropped.

use vstd::prelude::*;
use vstd::utf8::{decode_utf8, encode_utf8, is_char_boundary};
use crate::text::{ends_with, has_suffix, lowercase, lowercase_of, to_chars};

verus! {

/// The audio extensions that are dropped from a clip name, in the order in
/// which they are tried.
pub open spec fn audio_extensions() -> Seq<Seq<char>> {
    seq![
        ".flac"@,
        ".wav"@,
        ".mp3"@,
        ".aac"@,
        ".ogg"@,
        ".wma"@,
        ".m4a"@,
        ".aiff"@,
        ".aif"@,
    ]
}

/// Index of the first extension, from `from` on, that `lower` ends with.
pub open spec fn first_match(exts: Seq<Seq<char>>, lower: Seq<char>, from: int) -> Option<int>
    decreases exts.len() - from,
{
    if from < 0 || from >= exts.len() {
        None
    } else if ends_with(lower, exts[from]) {
        Some(from)
    } else {
        first_match(exts, lower, from + 1)
    }
}

/// `name` cut short by as many bytes as `ext` has, where `lower` is the
/// lowercase form in which the extension is looked for. The name is left as
/// it is if `lower` ends with none of the audio extensions, or if the cut
/// would not fall between two characters of `name`.
pub open spec fn stripped_name(name: Seq<char>, lower: Seq<char>) -> Seq<char> {
    match first_match(audio_extensions(), lower, 0) {
        Some(k) => {
            let bytes = encode_utf8(name);
            let cut = bytes.len() - encode_utf8(audio_extensions()[k]).len();
            if cut >= 0 && is_char_boundary(bytes, cut) {
                decode_utf8(bytes.subrange(0, cut))
            } else {
                name
            }
        },
        None => name,
    }
}

/// Drops the audio extension from `filename`, given the lowercase form
/// `lower` of the name.
pub fn strip_extension_found_in(filename: &str, lower: &str) -> (r: String)
    ensures
        r@ == stripped_name(filename@, lower@),
{
    let exts: Vec<&str> = vec![
        ".flac",
        ".wav",
        ".mp3",
        ".aac",
        ".ogg",
        ".wma",
        ".m4a",
        ".aiff",
        ".aif",
    ];
    let ghost specs = audio_extensions();
    assert(exts@.len() == specs.len());
    assert(forall|k: int| 0 <= k < exts@.len() ==> (#[trigger] exts@[k])@ == specs[k]);
    let lower_chars = to_chars(lower);
    let mut i: usize = 0;
    while i < exts.len()
        invariant
            i <= exts.len(),
            exts@.len() == specs.len(),
            specs == audio_extensions(),
            forall|k: int| 0 <= k < exts@.len() ==> (#[trigger] exts@[k])@ == specs[k],
            lower_chars@ == lower@,
            first_match(specs, lower@, i as int) == first_match(specs, lower@, 0),
        decreases exts.len() - i,
    {
        let ext = exts[i];
        let ext_chars = to_chars(ext);
        if has_suffix(&lower_chars, &ext_chars) {
            assert(ext@ == specs[i as int]);
            assert(first_match(specs, lower@, i as int) == Some(i as int));
            let total = filename.as_bytes().len();
            let drop = ext.as_bytes().len();
            assert(total == encode_utf8(filename@).len());
            assert(drop == encode_utf8(specs[i as int]).len());
            if total >= drop && filename.is_char_boundary(total - drop) {
                let (head, _tail) = filename.split_at(total - drop);
                proof {
                    vstd::utf8::encode_utf8_decode_utf8(head@);
                    assert(encode_utf8(head@) == encode_utf8(filename@).subrange(0, total - drop));
                }
                return head.to_owned();
            } else {
                return filename.to_owned();
            }
        }
        i += 1;
    }
    filename.to_owned()
}

/// Drops a trailing audio extension (`.flac`, `.wav`, `.mp3`, `.aac`, `.ogg`,
/// `.wma`, `.m4a`, `.aiff`, `.aif`) from `filename`. The extension is looked
/// for in the lowercase form of the name, so its case does not matter.
pub fn strip_audio_extension(filename: &str) -> (r: String)
    ensures
        r@ == stripped_name(filename@, lowercase_of(filename@)),
{
    let lower = lowercase(filename);
    strip_extension_found_in(filename, lower.as_str())
}

} // verus!
