//! The command line of the video decoder, and where its programs are looked for.

use vstd::prelude::*;

use crate::settings::{DataPath, DataPathView};
use crate::text::{
    ascii_lower, capitals_become_small, decimal, is_space, lower, same_text, texts, trim, trimmed,
    trimming_takes_off_white_space, u64_text,
};

verus! {

/// The least width and height of a decoded frame.
pub const LEAST_FRAME_SIDE: u32 = 2;

/// A method of decoding as it is compared: in small letters, without space around it.
pub open spec fn normalized(hwaccel: Seq<char>) -> Seq<char> {
    lower(trimmed(hwaccel))
}

/// Puts the name of a method of decoding into the form in which it is compared.
pub fn normalize_hwaccel(hwaccel: String) -> (r: String)
    ensures
        r@ == normalized(hwaccel@),
{
    ascii_lower(trim(hwaccel.as_str()).as_str())
}

/// Whether a method of decoding is one by hardware.
pub open spec fn by_hardware(hwaccel: Seq<char>) -> bool {
    &&& hwaccel.len() > 0
    &&& hwaccel != "none"@
    &&& hwaccel != "off"@
    &&& hwaccel != "software"@
}

/// Whether a method of decoding is one by hardware.
pub fn hwaccel_enabled(hwaccel: &str) -> (r: bool)
    ensures
        r == by_hardware(hwaccel@),
{
    hwaccel.unicode_len() > 0 && !same_text(hwaccel, "none") && !same_text(hwaccel, "off")
        && !same_text(hwaccel, "software")
}

/// The side of a frame as it is decoded.
pub open spec fn frame_side(side: u32) -> u32 {
    if side < LEAST_FRAME_SIDE {
        LEAST_FRAME_SIDE
    } else {
        side
    }
}

fn at_least(side: u32) -> (r: u32)
    ensures
        r == frame_side(side),
{
    if side < LEAST_FRAME_SIDE {
        LEAST_FRAME_SIDE
    } else {
        side
    }
}

/// The arguments before the input that choose a method of decoding.
pub open spec fn hwaccel_args(hwaccel: Seq<char>) -> Seq<Seq<char>> {
    if !by_hardware(hwaccel) {
        Seq::empty()
    } else if hwaccel == "cuda"@ {
        seq!["-hwaccel"@, "cuda"@, "-hwaccel_output_format"@, "cuda"@]
    } else {
        seq!["-hwaccel"@, hwaccel]
    }
}

fn push_arg(args: &mut Vec<String>, arg: &str)
    ensures
        texts(final(args)@) == texts(old(args)@).push(arg@),
{
    let ghost before = texts(args@);
    args.push(arg.to_owned());
    assert(texts(args@) =~= before.push(arg@));
}

/// Adds the arguments that choose a method of decoding.
pub fn append_hwaccel_args(args: &mut Vec<String>, hwaccel: &str)
    ensures
        texts(final(args)@) == texts(old(args)@) + hwaccel_args(hwaccel@),
{
    let ghost before = texts(args@);
    if !hwaccel_enabled(hwaccel) {
        assert(before + Seq::<Seq<char>>::empty() =~= before);
        return ;
    }
    push_arg(args, "-hwaccel");
    push_arg(args, hwaccel);
    if same_text(hwaccel, "cuda") {
        push_arg(args, "-hwaccel_output_format");
        push_arg(args, "cuda");
    }
    assert(texts(args@) =~= before + hwaccel_args(hwaccel@));
}

/// The filter that scales frames to a size. A filter that runs on the graphics card is followed by
/// a download of the frame; other methods scale on the processor.
pub open spec fn filter_text(hwaccel: Seq<char>, width: u32, height: u32) -> Seq<char> {
    let w = decimal(frame_side(width) as nat);
    let h = decimal(frame_side(height) as nat);
    if hwaccel == "cuda"@ {
        "scale_cuda="@ + w + ":"@ + h + ",hwdownload,format=rgba"@
    } else if hwaccel == "qsv"@ {
        "scale_qsv=w="@ + w + ":h="@ + h + ",hwdownload,format=rgba"@
    } else if hwaccel == "opencl"@ {
        "scale_opencl="@ + w + ":"@ + h + ",hwdownload,format=rgba"@
    } else {
        "scale="@ + w + ":"@ + h
    }
}

/// The filter that scales frames to a size.
pub fn video_filter(hwaccel: &str, width: u32, height: u32) -> (r: String)
    ensures
        r@ == filter_text(hwaccel@, width, height),
{
    let w: String = u64_text(at_least(width) as u64);
    let h: String = u64_text(at_least(height) as u64);
    let download: &str = ",hwdownload,format=rgba";
    if same_text(hwaccel, "cuda") {
        let mut out: String = "scale_cuda=".to_owned();
        out.append(w.as_str());
        out.append(":");
        out.append(h.as_str());
        out.append(download);
        out
    } else if same_text(hwaccel, "qsv") {
        let mut out: String = "scale_qsv=w=".to_owned();
        out.append(w.as_str());
        out.append(":h=");
        out.append(h.as_str());
        out.append(download);
        out
    } else if same_text(hwaccel, "opencl") {
        let mut out: String = "scale_opencl=".to_owned();
        out.append(w.as_str());
        out.append(":");
        out.append(h.as_str());
        out.append(download);
        out
    } else {
        let mut out: String = "scale=".to_owned();
        out.append(w.as_str());
        out.append(":");
        out.append(h.as_str());
        out
    }
}

/// The arguments of a decoder that writes the frames of a file, scaled to a size, as raw pixels to
/// its output.
pub open spec fn decoder_args(
    hwaccel: Seq<char>,
    looped: bool,
    path: Seq<char>,
    width: u32,
    height: u32,
) -> Seq<Seq<char>> {
    seq!["-hide_banner"@, "-loglevel"@, "error"@] + hwaccel_args(hwaccel) + (if looped {
        seq!["-stream_loop"@, "-1"@]
    } else {
        Seq::empty()
    }) + seq![
        "-i"@,
        path,
        "-an"@,
        "-sn"@,
        "-vf"@,
        filter_text(hwaccel, width, height),
        "-f"@,
        "rawvideo"@,
        "-pix_fmt"@,
        "rgba"@,
        "pipe:1"@,
    ]
}

/// The arguments of the decoder. A file that is to play in a loop is read over and over; sound and
/// subtitles are left out.
pub fn decode_args(hwaccel: &str, loop_playback: bool, path: &str, width: u32, height: u32) -> (r:
    Vec<String>)
    ensures
        texts(r@) == decoder_args(hwaccel@, loop_playback, path@, width, height),
{
    let mut args: Vec<String> = Vec::new();
    assert(texts(args@) =~= Seq::empty());
    push_arg(&mut args, "-hide_banner");
    push_arg(&mut args, "-loglevel");
    push_arg(&mut args, "error");
    append_hwaccel_args(&mut args, hwaccel);
    if loop_playback {
        push_arg(&mut args, "-stream_loop");
        push_arg(&mut args, "-1");
    }
    push_arg(&mut args, "-i");
    push_arg(&mut args, path);
    push_arg(&mut args, "-an");
    push_arg(&mut args, "-sn");
    push_arg(&mut args, "-vf");
    push_arg(&mut args, video_filter(hwaccel, width, height).as_str());
    push_arg(&mut args, "-f");
    push_arg(&mut args, "rawvideo");
    push_arg(&mut args, "-pix_fmt");
    push_arg(&mut args, "rgba");
    push_arg(&mut args, "pipe:1");
    assert(texts(args@) =~= decoder_args(hwaccel@, loop_playback, path@, width, height));
    args
}

/// The name of the decoder's program.
pub fn ffmpeg_binary_name(windows: bool) -> (r: &'static str)
    ensures
        r@ == (if windows {
            "ffmpeg.exe"@
        } else {
            "ffmpeg"@
        }),
{
    if windows {
        "ffmpeg.exe"
    } else {
        "ffmpeg"
    }
}

/// The name of the program that tells a video's frame rate.
pub fn ffprobe_binary_name(windows: bool) -> (r: &'static str)
    ensures
        r@ == (if windows {
            "ffprobe.exe"@
        } else {
            "ffprobe"@
        }),
{
    if windows {
        "ffprobe.exe"
    } else {
        "ffprobe"
    }
}

/// A program in a directory.
pub open spec fn tool_in(dir: Seq<char>, name: Seq<char>) -> DataPathView {
    DataPathView { root: dir, segments: seq![name] }
}

/// Where a program is looked for, first to last: in the directory that was set, beside the player,
/// under `tools/ffmpeg` of the working directory, and in the directories of the search path.
pub open spec fn tool_places(
    set_dir: Option<Seq<char>>,
    player_dir: Option<Seq<char>>,
    search_path: Seq<Seq<char>>,
    name: Seq<char>,
) -> Seq<DataPathView> {
    (match set_dir {
        Some(dir) => seq![tool_in(dir, name)],
        None => Seq::empty(),
    }) + (match player_dir {
        Some(dir) => seq![tool_in(dir, name)],
        None => Seq::empty(),
    }) + seq![DataPathView { root: "tools"@, segments: seq!["ffmpeg"@, name] }] + Seq::new(
        search_path.len(),
        |i: int| tool_in(search_path[i], name),
    )
}

/// The models of a list of paths.
pub open spec fn path_views(paths: Seq<DataPath>) -> Seq<DataPathView> {
    Seq::new(paths.len(), |i: int| paths[i]@)
}

fn push_path(paths: &mut Vec<DataPath>, path: DataPath)
    ensures
        path_views(final(paths)@) == path_views(old(paths)@).push(path@),
{
    let ghost before = path_views(paths@);
    let ghost view = path@;
    paths.push(path);
    assert(path_views(paths@) =~= before.push(view));
}

fn in_dir(dir: String, name: &str) -> (r: DataPath)
    ensures
        r@ == tool_in(dir@, name@),
{
    let path: DataPath = DataPath::new(dir).join(name);
    assert(Seq::<Seq<char>>::empty().push(name@) =~= seq![name@]);
    path
}

/// Where a program is looked for, first to last.
pub fn tool_candidates(
    set_dir: Option<String>,
    player_dir: Option<String>,
    search_path: Vec<String>,
    name: &str,
) -> (r: Vec<DataPath>)
    ensures
        path_views(r@) == tool_places(
            crate::text::opt_text(set_dir),
            crate::text::opt_text(player_dir),
            texts(search_path@),
            name@,
        ),
{
    let mut out: Vec<DataPath> = Vec::new();
    let ghost first = crate::text::opt_text(set_dir);
    let ghost second = crate::text::opt_text(player_dir);
    let ghost dirs = texts(search_path@);
    assert(path_views(out@) =~= Seq::empty());
    if let Some(dir) = set_dir {
        push_path(&mut out, in_dir(dir, name));
    }
    if let Some(dir) = player_dir {
        push_path(&mut out, in_dir(dir, name));
    }
    push_path(&mut out, DataPath::new("tools".to_owned()).join("ffmpeg").join(name));
    assert(Seq::<Seq<char>>::empty().push("ffmpeg"@).push(name@) =~= seq!["ffmpeg"@, name@]);
    let ghost head = path_views(out@);
    let ghost all = search_path@;
    assert(head =~= tool_places(first, second, Seq::empty(), name@));
    for dir in it: search_path
        invariant
            it.seq() == all,
            dirs == texts(all),
            path_views(out@) == head + Seq::new(
                it.index() as nat,
                |i: int| tool_in(dirs[i], name@),
            ),
    {
        let ghost k = it.index() as int;
        assert(dir == all[k]);
        push_path(&mut out, in_dir(dir, name));
        assert(Seq::new((k + 1) as nat, |i: int| tool_in(dirs[i], name@)) =~= Seq::new(
            k as nat,
            |i: int| tool_in(dirs[i], name@),
        ).push(tool_in(dirs[k], name@)));
    }
    assert(path_views(out@) =~= tool_places(first, second, dirs, name@));
    out
}

/// Software decodes where no method is named, or one of `none`, `off` and `software`; any other name
/// is one of hardware.
pub proof fn software_decodes_where_no_method_is_named(method: Seq<char>)
    ensures
        by_hardware(method) <==> method.len() != 0 && method != "none"@ && method != "off"@ && method
            != "software"@,
        !by_hardware(method) ==> hwaccel_args(method).len() == 0,
        by_hardware(method) ==> hwaccel_args(method).len() >= 2 && hwaccel_args(method)[0]
            == "-hwaccel"@ && hwaccel_args(method)[1] == method,
        by_hardware(method) && method != "cuda"@ ==> hwaccel_args(method).len() == 2,
        method == "cuda"@ && by_hardware(method) ==> hwaccel_args(method).len() == 4
            && hwaccel_args(method)[2] == "-hwaccel_output_format"@ && hwaccel_args(method)[3]
            == "cuda"@,
{
}

/// A method of decoding is compared without the white space around it and in small letters.
pub proof fn methods_are_compared_in_small_letters(hwaccel: Seq<char>) -> (r: (int, int))
    ensures
        0 <= r.0 <= r.1 <= hwaccel.len(),
        forall|i: int| 0 <= i < r.0 ==> is_space(#[trigger] hwaccel[i]),
        forall|i: int| r.1 <= i < hwaccel.len() ==> is_space(#[trigger] hwaccel[i]),
        r.0 < r.1 ==> !is_space(hwaccel[r.0]) && !is_space(hwaccel[r.1 - 1]),
        normalized(hwaccel).len() == r.1 - r.0,
        forall|i: int|
            0 <= i < r.1 - r.0 ==> {
                let c = hwaccel[r.0 + i];
                &&& 'A' <= c <= 'Z' ==> (#[trigger] normalized(hwaccel)[i]) as int == c as int + 32
                &&& !('A' <= c <= 'Z') ==> normalized(hwaccel)[i] == c
            },
{
    capitals_become_small(trimmed(hwaccel));
    trimming_takes_off_white_space(hwaccel)
}

/// Frames are asked for in the size that is given, the width before the height. A side is at least
/// two.
pub proof fn frames_are_scaled_to_the_size_asked_for(method: Seq<char>, width: u32, height: u32)
    ensures
        width >= 2 ==> frame_side(width) == width,
        width < 2 ==> frame_side(width) == 2,
        width >= 2 && height >= 2 && method == "cuda"@ ==> filter_text(method, width, height)
            == "scale_cuda="@ + decimal(width as nat) + ":"@ + decimal(height as nat)
            + ",hwdownload,format=rgba"@,
        width >= 2 && height >= 2 && method == "qsv"@ ==> filter_text(method, width, height)
            == "scale_qsv=w="@ + decimal(width as nat) + ":h="@ + decimal(height as nat)
            + ",hwdownload,format=rgba"@,
        width >= 2 && height >= 2 && method == "opencl"@ ==> filter_text(method, width, height)
            == "scale_opencl="@ + decimal(width as nat) + ":"@ + decimal(height as nat)
            + ",hwdownload,format=rgba"@,
        width >= 2 && height >= 2 && method != "cuda"@ && method != "qsv"@ && method != "opencl"@
            ==> filter_text(method, width, height) == "scale="@ + decimal(width as nat) + ":"@
            + decimal(height as nat),
{
    reveal_strlit("cuda");
    reveal_strlit("qsv");
    reveal_strlit("opencl");
    assert("cuda"@.len() != "qsv"@.len());
    assert("cuda"@.len() != "opencl"@.len());
    assert("qsv"@.len() != "opencl"@.len());
}

/// A decoder reads the file that it is given, over and over where it plays in a loop, and writes raw
/// frames of the size asked for to its output, without sound or subtitles. What chooses the method
/// comes before the file.
pub proof fn decoders_read_the_file_that_they_are_given(
    method: Seq<char>,
    looped: bool,
    path: Seq<char>,
    width: u32,
    height: u32,
)
    ensures
        ({
            let args = decoder_args(method, looped, path, width, height);
            let h = hwaccel_args(method).len() as int;
            let l: int = if looped {
                2
            } else {
                0
            };
            let n = 3 + h + l;
            &&& args.len() == n + 11
            &&& args[0] == "-hide_banner"@
            &&& args[1] == "-loglevel"@
            &&& args[2] == "error"@
            &&& args.subrange(3, 3 + h) == hwaccel_args(method)
            &&& looped ==> args[3 + h] == "-stream_loop"@ && args[4 + h] == "-1"@
            &&& args[n] == "-i"@
            &&& args[n + 1] == path
            &&& args[n + 2] == "-an"@
            &&& args[n + 3] == "-sn"@
            &&& args[n + 4] == "-vf"@
            &&& args[n + 5] == filter_text(method, width, height)
            &&& args[n + 6] == "-f"@
            &&& args[n + 7] == "rawvideo"@
            &&& args[n + 8] == "-pix_fmt"@
            &&& args[n + 9] == "rgba"@
            &&& args[n + 10] == "pipe:1"@
        }),
{
    assert(decoder_args(method, looped, path, width, height).subrange(
        3,
        3 + hwaccel_args(method).len() as int,
    ) =~= hwaccel_args(method));
}

/// A program is looked for in the directory that was set before all others, then beside the player,
/// then under `tools/ffmpeg`, and then along the search path, in its order.
pub proof fn programs_are_looked_for_where_they_were_set_first(
    set_dir: Option<Seq<char>>,
    player_dir: Option<Seq<char>>,
    search_path: Seq<Seq<char>>,
    name: Seq<char>,
)
    ensures
        ({
            let places = tool_places(set_dir, player_dir, search_path, name);
            let s: int = if set_dir is Some {
                1
            } else {
                0
            };
            let p: int = if player_dir is Some {
                1
            } else {
                0
            };
            &&& places.len() == s + p + 1 + search_path.len()
            &&& set_dir matches Some(dir) ==> places[0].root == dir && places[0].segments == seq![
                name,
            ]
            &&& player_dir matches Some(dir) ==> places[s].root == dir && places[s].segments
                == seq![name]
            &&& places[s + p].root == "tools"@
            &&& places[s + p].segments == seq!["ffmpeg"@, name]
            &&& forall|i: int|
                0 <= i < search_path.len() ==> places[s + p + 1 + i].root
                    == #[trigger] search_path[i] && places[s + p + 1 + i].segments == seq![name]
        }),
{
}
} // verus!
