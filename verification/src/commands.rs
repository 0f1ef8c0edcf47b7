//! The exact command lines for the external tools.
//!
//! The resize/convert tool, the frame extraction for videos, the lossy
//! size-bounded JPEG optimizer and the dimension probe are outside
//! processes; their command-line contract is fixed here, argument for
//! argument, and the application only spawns what this module built.

use vstd::prelude::*;
use vstd::string::StringExecFns;

use crate::media::is_video_name;
use crate::strutil::ext_matches;

verus! {

/// One process invocation: the program and its arguments, in order.
#[derive(Debug)]
pub struct ToolCommand {
    pub program: String,
    pub args: Vec<String>,
}

#[verifier::ext_equal]
pub ghost struct ToolCommandView {
    pub program: Seq<char>,
    pub args: Seq<Seq<char>>,
}

impl View for ToolCommand {
    type V = ToolCommandView;

    open spec fn view(&self) -> ToolCommandView {
        ToolCommandView { program: self.program@, args: self.args@.map_values(|a: String| a@) }
    }
}

/// The resize call: auto-orientation first, so a later lossy pass may strip
/// the orientation metadata, then an aspect-preserving fit into a fixed
/// bounding box. A video source reads frame `0` of the container.
pub open spec fn spec_resize(orig: Seq<char>, thumb: Seq<char>) -> ToolCommandView {
    ToolCommandView {
        program: "magick"@,
        args: seq![
            if is_video_name(orig) {
                orig + "[0]"@
            } else {
                orig
            },
            "-auto-orient"@,
            "-resize"@,
            "300x300"@,
            thumb,
        ],
    }
}

/// The lossy optimizer call: strips metadata and compresses the thumbnail
/// in place down to the fixed byte budget of 20 kilobytes.
pub open spec fn spec_optimize(thumb: Seq<char>) -> ToolCommandView {
    ToolCommandView { program: "jpegoptim"@, args: seq!["-s"@, "--size=20"@, thumb] }
}

/// The dimension probe call: prints the width and the height, separated by
/// one space, and nothing else.
pub open spec fn spec_probe(thumb: Seq<char>) -> ToolCommandView {
    ToolCommandView { program: "identify"@, args: seq!["-ping"@, "-format"@, "%w %h"@, thumb] }
}

/// Only a thumbnail that is itself a JPEG gets the optimizer pass.
pub open spec fn is_jpeg_name(s: Seq<char>) -> bool {
    ext_matches(s, "jpg"@) || ext_matches(s, "jpeg"@)
}

/// The commands that generate one thumbnail, in the order they must run:
/// the resize, and, for a JPEG output, the size-bounded optimizer. A
/// command failing means the item failed; later commands are not run.
pub open spec fn spec_generation_plan(orig: Seq<char>, thumb: Seq<char>) -> Seq<ToolCommandView> {
    if is_jpeg_name(thumb) {
        seq![spec_resize(orig, thumb), spec_optimize(thumb)]
    } else {
        seq![spec_resize(orig, thumb)]
    }
}

fn resize_command(orig_path: &str, thumb_path: &str) -> (r: ToolCommand)
    ensures
        r@ == spec_resize(orig_path@, thumb_path@),
{
    let source: String = if crate::strutil::has_extension(orig_path, "mp4") {
        String::from_str(orig_path).concat("[0]")
    } else {
        orig_path.to_owned()
    };
    let mut args: Vec<String> = Vec::new();
    args.push(source);
    args.push("-auto-orient".to_owned());
    args.push("-resize".to_owned());
    args.push("300x300".to_owned());
    args.push(thumb_path.to_owned());
    let r = ToolCommand { program: "magick".to_owned(), args };
    proof {
        assert(r@.args =~= spec_resize(orig_path@, thumb_path@).args);
        assert(r@ =~= spec_resize(orig_path@, thumb_path@));
    }
    r
}

fn optimize_command(thumb_path: &str) -> (r: ToolCommand)
    ensures
        r@ == spec_optimize(thumb_path@),
{
    let mut args: Vec<String> = Vec::new();
    args.push("-s".to_owned());
    args.push("--size=20".to_owned());
    args.push(thumb_path.to_owned());
    let r = ToolCommand { program: "jpegoptim".to_owned(), args };
    proof {
        assert(r@.args =~= spec_optimize(thumb_path@).args);
        assert(r@ =~= spec_optimize(thumb_path@));
    }
    r
}

/// Builds the probe invocation for one thumbnail file.
pub fn probe_command(thumb_path: &str) -> (r: ToolCommand)
    ensures
        r@ == spec_probe(thumb_path@),
{
    let mut args: Vec<String> = Vec::new();
    args.push("-ping".to_owned());
    args.push("-format".to_owned());
    args.push("%w %h".to_owned());
    args.push(thumb_path.to_owned());
    let r = ToolCommand { program: "identify".to_owned(), args };
    proof {
        assert(r@.args =~= spec_probe(thumb_path@).args);
        assert(r@ =~= spec_probe(thumb_path@));
    }
    r
}

/// Builds the commands that generate the thumbnail at `thumb_path` from the
/// source at `orig_path`.
pub fn generation_plan(orig_path: &str, thumb_path: &str) -> (r: Vec<ToolCommand>)
    ensures
        r@.map_values(|c: ToolCommand| c@) == spec_generation_plan(orig_path@, thumb_path@),
{
    let mut r: Vec<ToolCommand> = Vec::new();
    r.push(resize_command(orig_path, thumb_path));
    let jpeg = crate::strutil::has_extension(thumb_path, "jpg") || crate::strutil::has_extension(
        thumb_path,
        "jpeg",
    );
    if jpeg {
        r.push(optimize_command(thumb_path));
    }
    proof {
        assert(r@.map_values(|c: ToolCommand| c@) =~= spec_generation_plan(
            orig_path@,
            thumb_path@,
        ));
    }
    r
}

} // verus!
