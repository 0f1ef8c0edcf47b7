//! Classification of source files by extension, and derivation of the
//! thumbnail file name for a source file.

use vstd::prelude::*;
use vstd::string::StrSliceExecFns;
use vstd::string::StringExecFns;

use crate::strutil::{ext_matches, has_extension, lower_eq, push_char};

verus! {

/// What kind of media a source file holds, judged by its extension.
#[derive(Clone, Copy, Debug, PartialEq, Eq, Structural)]
pub enum MediaKind {
    Image,
    Video,
    Unsupported,
}

/// The still-image extensions the gallery accepts.
pub open spec fn is_image_name(s: Seq<char>) -> bool {
    ||| ext_matches(s, "jpg"@)
    ||| ext_matches(s, "jpeg"@)
    ||| ext_matches(s, "png"@)
}

/// The one video container extension the gallery accepts.
pub open spec fn is_video_name(s: Seq<char>) -> bool {
    ext_matches(s, "mp4"@)
}

pub open spec fn spec_classify(s: Seq<char>) -> MediaKind {
    if is_image_name(s) {
        MediaKind::Image
    } else if is_video_name(s) {
        MediaKind::Video
    } else {
        MediaKind::Unsupported
    }
}

/// Classifies a file name into image, video or unsupported, by its
/// extension, ignoring ASCII case.
pub fn classify(name: &str) -> (r: MediaKind)
    ensures
        r == spec_classify(name@),
{
    if has_extension(name, "jpg") || has_extension(name, "jpeg") || has_extension(name, "png") {
        MediaKind::Image
    } else if has_extension(name, "mp4") {
        MediaKind::Video
    } else {
        MediaKind::Unsupported
    }
}

/// True when the scanner accepts the file as a thumbnail source.
pub open spec fn is_supported_name(s: Seq<char>) -> bool {
    spec_classify(s) != MediaKind::Unsupported
}

/// Decides whether the scanner accepts the file as a thumbnail source.
pub fn is_supported(name: &str) -> (r: bool)
    ensures
        r == is_supported_name(name@),
{
    match classify(name) {
        MediaKind::Unsupported => false,
        _ => true,
    }
}

/// The name of the thumbnail for a source file: video sources map to a name
/// with the `jpg` image extension, all other sources keep their own name.
pub open spec fn spec_thumb_name(s: Seq<char>) -> Seq<char> {
    if spec_classify(s) == MediaKind::Video {
        s.subrange(0, s.len() - 4) + ".jpg"@
    } else {
        s
    }
}

/// Derives the thumbnail file name for a source file name.
pub fn thumb_file_name(name: &str) -> (r: String)
    ensures
        r@ == spec_thumb_name(name@),
{
    match classify(name) {
        MediaKind::Video => {
            let n = name.unicode_len();
            proof {
                reveal_strlit("mp4");
                assert(name@.len() >= 5);
            }
            let base = name.substring_char(0, n - 4);
            String::from_str(base).concat(".jpg")
        }
        _ => name.to_owned(),
    }
}

/// A video source always yields a thumbnail that carries the `jpg` image
/// extension, never the source's own container extension.
pub proof fn lemma_video_mapping(s: Seq<char>)
    requires
        spec_classify(s) == MediaKind::Video,
    ensures
        ext_matches(spec_thumb_name(s), "jpg"@),
        !ext_matches(spec_thumb_name(s), "mp4"@),
        spec_classify(spec_thumb_name(s)) == MediaKind::Image,
{
    reveal_strlit("mp4");
    reveal_strlit("jpg");
    reveal_strlit(".jpg");
    reveal_strlit("jpeg");
    reveal_strlit("png");
    let t = spec_thumb_name(s);
    assert(t =~= s.subrange(0, s.len() - 4) + ".jpg"@);
    assert(t.len() == s.len());
    assert(t[t.len() - 4] == '.');
    assert(t[t.len() - 3] == 'j' && t[t.len() - 2] == 'p' && t[t.len() - 1] == 'g');
    assert(ext_matches(t, "jpg"@));
    assert(("mp4"@)[2] == '4');
    assert(!lower_eq(t[t.len() - 3 + 2], ("mp4"@)[2]));
    assert(!ext_matches(t, "mp4"@));
}

/// Where one character class (letters, digits) ends and the other begins in
/// `s`, a space is inserted; used for human-readable gallery titles.
pub open spec fn spec_split_image_name(s: Seq<char>, i: int, last: Option<bool>) -> Seq<char>
    decreases s.len() - i,
{
    if i < 0 || i >= s.len() {
        Seq::<char>::empty()
    } else {
        let d = is_digit(s[i]);
        let sep: Seq<char> = if last is Some && last->0 != d {
            seq![' ']
        } else {
            Seq::<char>::empty()
        };
        sep + seq![s[i]] + spec_split_image_name(s, i + 1, Some(d))
    }
}

pub open spec fn is_digit(c: char) -> bool {
    48 <= c as u32 <= 57
}

/// Inserts a space wherever the name switches between a run of digits and a
/// run of other characters.
pub fn split_image_name(s: &str) -> (r: String)
    ensures
        r@ == spec_split_image_name(s@, 0, None::<bool>),
{
    let n = s.unicode_len();
    let mut res = String::new();
    let mut i: usize = 0;
    let mut last: Option<bool> = None;
    while i < n
        invariant
            0 <= i <= n == s@.len(),
            i == 0 ==> last is None,
            i > 0 ==> last == Some(is_digit(s@[i - 1])),
            res@ + spec_split_image_name(s@, i as int, last) == spec_split_image_name(
                s@,
                0,
                None::<bool>,
            ),
        decreases n - i,
    {
        let c = s.get_char(i);
        let d = c as u32 >= 48 && c as u32 <= 57;
        let ghost old_res = res@;
        let ghost old_last = last;
        match last {
            Some(l) => {
                if l != d {
                    push_char(&mut res, ' ');
                }
            }
            None => {}
        }
        push_char(&mut res, c);
        proof {
            let sep: Seq<char> = if old_last is Some && old_last->0 != d {
                seq![' ']
            } else {
                Seq::<char>::empty()
            };
            assert(res@ =~= old_res + sep + seq![s@[i as int]]);
            assert(spec_split_image_name(s@, i as int, old_last) == sep + seq![s@[i as int]]
                + spec_split_image_name(s@, i + 1, Some(d)));
            assert(res@ + spec_split_image_name(s@, i + 1, Some(d)) =~= old_res
                + spec_split_image_name(s@, i as int, old_last));
        }
        last = Some(d);
        i = i + 1;
    }
    res
}

} // verus!
