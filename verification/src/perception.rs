//! Perception side: camera sources, vision configuration and the object
//! list a vision model reports.
use vstd::prelude::*;
use base64::Engine;
use std::path::PathBuf;

use crate::text::{
    chars_of, decimal, has_prefix, lines, lines_of, push_decimal, push_str, split_by,
    split_on_char, string_from, strip_prefix_chars, trim, trim_chars, views,
};
use crate::types::Modality;

verus! {

#[verifier::external_type_specification]
#[verifier::external_body]
pub struct ExPathBuf(PathBuf);

/// The character of a 6-bit value in the standard base64 alphabet
/// (`A`-`Z`, `a`-`z`, `0`-`9`, `+`, `/`).
pub open spec fn base64_digit(v: nat) -> char {
    "ABCDEFGHIJKLMNOPQRSTUVWXYZabcdefghijklmnopqrstuvwxyz0123456789+/"@[v as int]
}

/// The standard base64 encoding of the bytes, with padding (RFC 4648): each
/// group of three bytes becomes four characters of six bits each, and a
/// final group of one or two bytes is padded with `=`.
pub open spec fn base64_standard_of(b: Seq<u8>) -> Seq<char>
    decreases b.len(),
{
    if b.len() == 0 {
        seq![]
    } else if b.len() == 1 {
        seq![base64_digit(b[0] as nat / 4), base64_digit((b[0] as nat % 4) * 16), '=', '=']
    } else if b.len() == 2 {
        seq![
            base64_digit(b[0] as nat / 4),
            base64_digit((b[0] as nat % 4) * 16 + b[1] as nat / 16),
            base64_digit((b[1] as nat % 16) * 4),
            '=',
        ]
    } else {
        seq![
            base64_digit(b[0] as nat / 4),
            base64_digit((b[0] as nat % 4) * 16 + b[1] as nat / 16),
            base64_digit((b[1] as nat % 16) * 4 + b[2] as nat / 64),
            base64_digit(b[2] as nat % 64),
        ] + base64_standard_of(b.skip(3))
    }
}

/// Calls `base64::engine::general_purpose::STANDARD.encode`: the standard
/// alphabet with padding, as `base64_standard_of` states it.
#[verifier::external_body]
fn base64_standard(bytes: &[u8]) -> (s: String)
    ensures
        s@ == base64_standard_of(bytes@),
{
    base64::engine::general_purpose::STANDARD.encode(bytes)
}

/// Encode image bytes as standard padded base64 for a vision model request.
pub fn encode_image(image_bytes: &[u8]) -> (s: String)
    ensures
        s@ == base64_standard_of(image_bytes@),
{
    base64_standard(image_bytes)
}

/// Captures frames from a camera through an `ffmpeg` subprocess.
pub struct FfmpegCamera {
    pub device_index: u32,
    pub width: u32,
    pub height: u32,
    pub input_format: String,
}

/// The arguments `ffmpeg` is run with to capture one JPEG frame.
pub open spec fn ffmpeg_args(cam: FfmpegCamera) -> Seq<Seq<char>> {
    seq![
        "-f"@,
        cam.input_format@,
        "-video_size"@,
        decimal(cam.width as nat) + "x"@ + decimal(cam.height as nat),
        "-framerate"@,
        "1"@,
        "-i"@,
        decimal(cam.device_index as nat) + ":none"@,
        "-frames:v"@,
        "1"@,
        "-f"@,
        "image2pipe"@,
        "-vcodec"@,
        "mjpeg"@,
        "-"@,
    ]
}

impl FfmpegCamera {
    /// A camera at the given device index, 640x480, through AVFoundation.
    pub fn new(device_index: u32) -> (c: Self)
        ensures
            c.device_index == device_index,
            c.width == 640,
            c.height == 480,
            c.input_format@ == "avfoundation"@,
    {
        FfmpegCamera { device_index, width: 640, height: 480, input_format: "avfoundation".to_owned() }
    }

    /// The same camera at another resolution.
    pub fn with_resolution(self, width: u32, height: u32) -> (c: Self)
        ensures
            c.device_index == self.device_index,
            c.width == width,
            c.height == height,
            c.input_format == self.input_format,
    {
        FfmpegCamera { width, height, ..self }
    }

    /// The same camera with another input format (`avfoundation`, `v4l2`, ...).
    pub fn with_input_format(self, format: &str) -> (c: Self)
        ensures
            c.device_index == self.device_index,
            c.width == self.width,
            c.height == self.height,
            c.input_format@ == format@,
    {
        FfmpegCamera { input_format: format.to_owned(), ..self }
    }

    /// The arguments `ffmpeg` is run with to capture one frame.
    pub fn capture_args(&self) -> (args: Vec<String>)
        ensures
            args@.map_values(|a: String| a@) == ffmpeg_args(*self),
    {
        let mut size = String::new();
        push_decimal(&mut size, self.width as u64);
        push_str(&mut size, "x");
        push_decimal(&mut size, self.height as u64);
        let mut device = String::new();
        push_decimal(&mut device, self.device_index as u64);
        push_str(&mut device, ":none");
        let mut args: Vec<String> = Vec::new();
        args.push("-f".to_owned());
        args.push(self.input_format.clone());
        args.push("-video_size".to_owned());
        args.push(size);
        args.push("-framerate".to_owned());
        args.push("1".to_owned());
        args.push("-i".to_owned());
        args.push(device);
        args.push("-frames:v".to_owned());
        args.push("1".to_owned());
        args.push("-f".to_owned());
        args.push("image2pipe".to_owned());
        args.push("-vcodec".to_owned());
        args.push("mjpeg".to_owned());
        args.push("-".to_owned());
        assert(args@.map_values(|a: String| a@) =~= ffmpeg_args(*self));
        args
    }
}

/// Loads frames from a file on disk.
pub struct FileCamera {
    pub path: PathBuf,
}

impl FileCamera {
    pub fn new(path: PathBuf) -> (c: Self)
        ensures
            c.path == path,
    {
        FileCamera { path }
    }
}

/// An in-memory camera source: every frame is the same bytes.
pub struct MemoryCamera {
    pub data: Vec<u8>,
}

impl MemoryCamera {
    pub fn new(data: Vec<u8>) -> (c: Self)
        ensures
            c.data == data,
    {
        MemoryCamera { data }
    }
}

/// A stub processor that produces one dummy percept per frame of its modality.
pub struct StubProcessor {
    modality: Modality,
}

impl StubProcessor {
    /// The modality handled.
    pub closed spec fn handles(&self) -> Modality {
        self.modality
    }

    pub fn new(modality: Modality) -> (p: Self)
        ensures
            p.handles() == modality,
    {
        StubProcessor { modality }
    }

    /// The modality of the frames this processor takes.
    pub fn supported_modality(&self) -> (m: Modality)
        ensures
            m == self.handles(),
    {
        self.modality
    }
}

/// A processor held by a pipeline, with the modality it handles.
pub struct PipelineStage<P> {
    pub modality: Modality,
    pub processor: P,
}

/// Routes sensor frames to the processors of their modality. `P` is the
/// processor type.
pub struct PerceptionPipeline<P> {
    processors: Vec<PipelineStage<P>>,
}

impl<P> PerceptionPipeline<P> {
    /// The processors, in the order they were added.
    pub closed spec fn stages(&self) -> Seq<PipelineStage<P>> {
        self.processors@
    }

    /// A pipeline without processors.
    pub fn new() -> (p: Self)
        ensures
            p.stages().len() == 0,
    {
        PerceptionPipeline { processors: Vec::new() }
    }

    /// Add a processor of the given modality after the others.
    pub fn add_processor(&mut self, processor: P, modality: Modality)
        ensures
            final(self).stages() == old(self).stages().push(PipelineStage { modality, processor }),
    {
        self.processors.push(PipelineStage { modality, processor });
    }

    /// The processors a frame of the modality goes to, in order.
    pub fn processors_for(&self, modality: Modality) -> (r: Vec<&P>)
        ensures
            r@.map_values(|p: &P| *p) == self.stages().filter(
                |s: PipelineStage<P>| s.modality == modality,
            ).map_values(|s: PipelineStage<P>| s.processor),
    {
        let ghost keep = |s: PipelineStage<P>| s.modality == modality;
        let mut r: Vec<&P> = Vec::new();
        let mut i: usize = 0;
        while i < self.processors.len()
            invariant
                i <= self.processors@.len(),
                keep == (|s: PipelineStage<P>| s.modality == modality),
                r@.map_values(|p: &P| *p) == self.processors@.take(i as int).filter(keep).map_values(
                    |s: PipelineStage<P>| s.processor,
                ),
            decreases self.processors.len() - i,
        {
            let ghost before = r@;
            let stage = &self.processors[i];
            if stage.modality == modality {
                r.push(&stage.processor);
            }
            proof {
                reveal(Seq::filter);
                let pre = self.processors@.take(i + 1);
                assert(pre.drop_last() =~= self.processors@.take(i as int));
                assert(pre.last() == *stage);
                let f = self.processors@.take(i as int).filter(keep);
                if keep(*stage) {
                    assert(pre.filter(keep) == f.push(*stage));
                    assert(f.push(*stage).map_values(|s: PipelineStage<P>| s.processor) =~= f.map_values(
                        |s: PipelineStage<P>| s.processor,
                    ).push(stage.processor));
                    assert(r@.map_values(|p: &P| *p) =~= before.map_values(|p: &P| *p).push(
                        stage.processor,
                    ));
                } else {
                    assert(pre.filter(keep) == f);
                }
            }
            i = i + 1;
        }
        assert(self.processors@.take(self.processors@.len() as int) =~= self.processors@);
        r
    }
}

impl<P> Default for PerceptionPipeline<P> {
    fn default() -> (p: Self)
        ensures
            p.stages().len() == 0,
    {
        Self::new()
    }
}

/// How many of the `offered` samples a recording of `total` samples takes
/// when `filled` are in: as many as still fit.
pub fn samples_to_take(filled: usize, total: usize, offered: usize) -> (n: usize)
    ensures
        n == if filled < total {
            if offered < total - filled {
                offered as int
            } else {
                total - filled
            }
        } else {
            0
        },
        filled <= total ==> filled + n <= total,
        filled < total && offered > 0 ==> n > 0,
{
    if filled < total {
        let room = total - filled;
        if offered < room {
            offered
        } else {
            room
        }
    } else {
        0
    }
}

/// Configuration for the vision analyzer.
#[derive(Debug, Clone, PartialEq, Eq)]
pub struct VisionConfig {
    pub ollama_host: String,
    pub ollama_port: u16,
    pub model: String,
}

impl Default for VisionConfig {
    /// `llava` on the local Ollama server.
    fn default() -> (c: Self)
        ensures
            c.ollama_host@ == "http://localhost"@,
            c.ollama_port == 11434,
            c.model@ == "llava"@,
    {
        VisionConfig {
            ollama_host: "http://localhost".to_owned(),
            ollama_port: 11434,
            model: "llava".to_owned(),
        }
    }
}

impl VisionConfig {
    /// The Ollama API base URL: `host:port`.
    pub fn api_url(&self) -> (s: String)
        ensures
            s@ == self.ollama_host@ + ":"@ + decimal(self.ollama_port as nat),
    {
        let mut s = self.ollama_host.clone();
        push_str(&mut s, ":");
        push_decimal(&mut s, self.ollama_port as u64);
        s
    }
}

impl VisionConfig {
    /// The model's generate endpoint: `host:port/api/generate`.
    pub fn generate_url(&self) -> (s: String)
        ensures
            s@ == self.ollama_host@ + ":"@ + decimal(self.ollama_port as nat) + "/api/generate"@,
    {
        let mut s = self.api_url();
        push_str(&mut s, "/api/generate");
        s
    }
}

/// The prompt asking a vision model to describe an image and list its objects.
pub open spec fn scene_prompt() -> Seq<char> {
    "Describe what you see in this image concisely. List any objects, people, or notable features as a comma-separated list after 'Objects:' on a new line."@
}

/// The prompt asking a vision model to describe an image and list its objects.
pub fn scene_description_prompt() -> (p: &'static str)
    ensures
        p@ == scene_prompt(),
{
    "Describe what you see in this image concisely. List any objects, people, or notable features as a comma-separated list after 'Objects:' on a new line."
}

/// Result of analyzing an image with the vision model.
#[derive(Debug, Clone, PartialEq, Eq)]
pub struct VisionResult {
    pub description: String,
    pub objects: Vec<String>,
    pub timestamp_ms: u64,
}

impl VisionResult {
    /// The result for a model's scene description: the description, the
    /// objects it lists and the time of the analysis.
    pub fn from_description(description: String, timestamp_ms: u64) -> (r: Self)
        ensures
            r.description == description,
            r.objects@.map_values(|s: String| s@) == objects_of_lines(lines(description@)),
            r.timestamp_ms == timestamp_ms,
    {
        let objects = extract_objects(description.as_str());
        VisionResult { description, objects, timestamp_ms }
    }
}

/// The object names of an `Objects:` list: the comma-separated items,
/// trimmed, without empty ones.
pub open spec fn object_names(rest: Seq<char>) -> Seq<Seq<char>> {
    split_by(rest, |x: char| x == ',').map_values(|p: Seq<char>| trim(p)).filter(
        |p: Seq<char>| p.len() > 0,
    )
}

/// The objects listed on the first line that starts, after trimming, with
/// `Objects:`; none when there is no such line.
pub open spec fn objects_of_lines(ls: Seq<Seq<char>>) -> Seq<Seq<char>>
    decreases ls.len(),
{
    if ls.len() == 0 {
        seq![]
    } else if has_prefix(trim(ls[0]), "Objects:"@) {
        object_names(trim(ls[0]).skip("Objects:"@.len() as int))
    } else {
        objects_of_lines(ls.drop_first())
    }
}

/// The object names in a list after `Objects:`.
fn object_list(rest: &Vec<char>) -> (objects: Vec<String>)
    ensures
        objects@.map_values(|s: String| s@) == object_names(rest@),
{
    let pieces = split_on_char(rest, ',');
    let ghost trimmed = views(pieces@).map_values(|p: Seq<char>| trim(p));
    let ghost keep = |p: Seq<char>| p.len() > 0;
    let mut objects: Vec<String> = Vec::new();
    let mut i: usize = 0;
    while i < pieces.len()
        invariant
            i <= pieces.len(),
            trimmed == views(pieces@).map_values(|p: Seq<char>| trim(p)),
            keep == (|p: Seq<char>| p.len() > 0),
            objects@.map_values(|s: String| s@) == trimmed.take(i as int).filter(keep),
        decreases pieces.len() - i,
    {
        let ghost before = objects@;
        let t = trim_chars(&pieces[i]);
        if t.len() > 0 {
            objects.push(string_from(&t));
        }
        proof {
            reveal(Seq::filter);
            let pre = trimmed.take(i + 1);
            assert(pre.drop_last() =~= trimmed.take(i as int));
            assert(pre.last() == t@);
            assert(objects@.map_values(|s: String| s@) =~= (if keep(pre.last()) {
                before.map_values(|s: String| s@).push(pre.last())
            } else {
                before.map_values(|s: String| s@)
            }));
        }
        i = i + 1;
    }
    proof {
        assert(trimmed.take(pieces.len() as int) =~= trimmed);
    }
    objects
}

/// Extract object names from a vision model's description: the
/// comma-separated list on the first line that starts with `Objects:`.
pub fn extract_objects(description: &str) -> (objects: Vec<String>)
    ensures
        objects@.map_values(|s: String| s@) == objects_of_lines(lines(description@)),
{
    let v = chars_of(description);
    let ls = lines_of(&v);
    let ghost lv = views(ls@);
    assert(lv.skip(0) =~= lv);
    let mut i: usize = 0;
    while i < ls.len()
        invariant
            i <= ls.len(),
            lv == views(ls@),
            lines(description@) == lv,
            objects_of_lines(lv) == objects_of_lines(lv.skip(i as int)),
        decreases ls.len() - i,
    {
        let t = trim_chars(&ls[i]);
        proof {
            assert(lv.skip(i as int)[0] == ls@[i as int]@);
            assert(lv.skip(i as int).drop_first() =~= lv.skip(i + 1));
        }
        match strip_prefix_chars(&t, "Objects:") {
            Some(rest) => {
                let objects = object_list(&rest);
                proof {
                    assert(objects_of_lines(lv.skip(i as int)) == object_names(
                        trim(lv.skip(i as int)[0]).skip("Objects:"@.len() as int),
                    ));
                }
                return objects;
            },
            None => {},
        }
        i = i + 1;
    }
    proof {
        assert(lv.skip(ls.len() as int) =~= Seq::<Seq<char>>::empty());
    }
    Vec::new()
}

} // verus!
