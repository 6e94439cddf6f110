//! Thumbnail planning: the cache key of a source file and the command that
//! renders its first frame or page as a small JPEG.
use vstd::prelude::*;
use vstd::string::*;
use vstd::utf8::encode_utf8;
use crate::probe::MediaKind;
use crate::text::{cat, decimal, fmt_hex, fmt_u64, hex, push_arg, push_lit, texts};

verus! {

/// The FNV-1a offset basis.
pub const FNV_OFFSET: u64 = 0xcbf29ce484222325;

/// The FNV-1a prime.
pub const FNV_PRIME: u64 = 0x100000001b3;

/// One FNV-1a round: mix in a byte, then multiply modulo 2^64.
pub open spec fn fnv_step(h: u64, b: u8) -> u64 {
    (h ^ (b as u64)).wrapping_mul(FNV_PRIME)
}

/// FNV-1a over `bytes`, starting from state `h`.
pub open spec fn fnv_from(h: u64, bytes: Seq<u8>) -> u64
    decreases bytes.len(),
{
    if bytes.len() == 0 {
        h
    } else {
        fnv_from(fnv_step(h, bytes[0]), bytes.drop_first())
    }
}

/// The 64-bit FNV-1a hash of a byte string.
pub open spec fn fnv1a(bytes: Seq<u8>) -> u64 {
    fnv_from(FNV_OFFSET, bytes)
}

proof fn lemma_fnv_from_push(h: u64, bytes: Seq<u8>, b: u8)
    ensures
        fnv_from(h, bytes.push(b)) == fnv_step(fnv_from(h, bytes), b),
    decreases bytes.len(),
{
    if bytes.len() > 0 {
        assert(bytes.push(b).drop_first() =~= bytes.drop_first().push(b));
        assert(bytes.push(b)[0] == bytes[0]);
        lemma_fnv_from_push(fnv_step(h, bytes[0]), bytes.drop_first(), b);
    } else {
        assert(bytes.push(b).drop_first() =~= Seq::<u8>::empty());
        assert(bytes.push(b)[0] == b);
        assert(fnv_from(fnv_step(h, b), Seq::<u8>::empty()) == fnv_step(h, b));
    }
}

/// The 64-bit FNV-1a hash of the UTF-8 bytes of `s`; a cheap cache key.
pub fn md5ish(s: &str) -> (h: u64)
    ensures
        h == fnv1a(s.spec_bytes()),
{
    let bytes = s.as_bytes();
    let mut h: u64 = FNV_OFFSET;
    let mut i: usize = 0;
    while i < bytes.len()
        invariant
            i <= bytes@.len(),
            bytes@ == s.spec_bytes(),
            h == fnv_from(FNV_OFFSET, bytes@.subrange(0, i as int)),
        decreases bytes@.len() - i,
    {
        proof {
            lemma_fnv_from_push(FNV_OFFSET, bytes@.subrange(0, i as int), bytes@[i as int]);
            assert(bytes@.subrange(0, i as int).push(bytes@[i as int]) =~= bytes@.subrange(0, i + 1));
        }
        h = (h ^ (bytes[i] as u64)).wrapping_mul(FNV_PRIME);
        i = i + 1;
    }
    assert(bytes@.subrange(0, i as int) =~= bytes@);
    h
}

/// The text that identifies one version of a source file: its path, its
/// modification time in seconds and its length, separated by `|`.
pub open spec fn fingerprint(path: Seq<char>, mtime_secs: nat, len: nat) -> Seq<char> {
    path + "|"@ + decimal(mtime_secs) + "|"@ + decimal(len)
}

/// The cache key of a source file: the hash of its fingerprint, in lowercase
/// hexadecimal without leading zeros.
pub open spec fn thumb_key_of(path: Seq<char>, mtime_secs: nat, len: nat) -> Seq<char> {
    hex(fnv1a(encode_utf8(fingerprint(path, mtime_secs, len))) as nat)
}

/// The cache key of a source file; it changes whenever the file is replaced
/// or touched.
pub fn thumb_key(path: &str, mtime_secs: u64, len: u64) -> (k: String)
    ensures
        k@ == thumb_key_of(path@, mtime_secs as nat, len as nat),
{
    let a = cat(path, "|");
    let m = fmt_u64(mtime_secs);
    let b = cat(a.as_str(), m.as_str());
    let c = cat(b.as_str(), "|");
    let l = fmt_u64(len);
    let f = cat(c.as_str(), l.as_str());
    let h = md5ish(f.as_str());
    fmt_hex(h)
}

/// The file name of a cached thumbnail.
pub fn thumb_file_name(key: &str) -> (r: String)
    ensures
        r@ == key@ + ".jpg"@,
{
    cat(key, ".jpg")
}

/// Which program renders a thumbnail.
#[derive(Debug, Clone, Copy, PartialEq, Eq, Structural)]
pub enum ThumbTool {
    Ffmpeg,
    Ghostscript,
}

/// The ffmpeg arguments that grab one frame of `input` into `out`, scaled to
/// at most 480 pixels wide; videos are sampled half a second in.
pub open spec fn ffmpeg_thumb_args(kind: MediaKind, input: Seq<char>, out: Seq<char>) -> Seq<Seq<char>> {
    seq!["-hide_banner"@, "-y"@, "-nostdin"@, "-loglevel"@, "error"@]
        + (if kind == MediaKind::Video { seq!["-ss"@, "0.5"@] } else { Seq::empty() })
        + seq![
        "-i"@,
        input,
        "-frames:v"@,
        "1"@,
        "-vf"@,
        "scale='min(480,iw)':-2"@,
        "-q:v"@,
        "4"@,
        out,
    ]
}

/// The Ghostscript arguments that render the first page of `input` into `out`.
pub open spec fn gs_thumb_args(input: Seq<char>, out: Seq<char>) -> Seq<Seq<char>> {
    seq![
        "-q"@,
        "-dNOPAUSE"@,
        "-dBATCH"@,
        "-dSAFER"@,
        "-sDEVICE=jpeg"@,
        "-dFirstPage=1"@,
        "-dLastPage=1"@,
        "-r40"@,
        "-dJPEGQ=80"@,
        "-sOutputFile="@ + out,
        input,
    ]
}

/// The program and arguments that render a thumbnail of a file of the given
/// kind; `None` for a kind that has none.
pub open spec fn thumb_command(kind: MediaKind, input: Seq<char>, out: Seq<char>) -> Option<(ThumbTool, Seq<Seq<char>>)> {
    match kind {
        MediaKind::Video | MediaKind::Gif | MediaKind::Image => Some((ThumbTool::Ffmpeg, ffmpeg_thumb_args(kind, input, out))),
        MediaKind::Pdf => Some((ThumbTool::Ghostscript, gs_thumb_args(input, out))),
        MediaKind::Unknown => None,
    }
}

fn ffmpeg_thumb(kind: MediaKind, input: &str, out: &str) -> (r: Vec<String>)
    ensures
        texts(r@) == ffmpeg_thumb_args(kind, input@, out@),
{
    let mut a: Vec<String> = Vec::new();
    push_lit(&mut a, "-hide_banner");
    push_lit(&mut a, "-y");
    push_lit(&mut a, "-nostdin");
    push_lit(&mut a, "-loglevel");
    push_lit(&mut a, "error");
    if kind == MediaKind::Video {
        push_lit(&mut a, "-ss");
        push_lit(&mut a, "0.5");
    }
    push_lit(&mut a, "-i");
    push_lit(&mut a, input);
    push_lit(&mut a, "-frames:v");
    push_lit(&mut a, "1");
    push_lit(&mut a, "-vf");
    push_lit(&mut a, "scale='min(480,iw)':-2");
    push_lit(&mut a, "-q:v");
    push_lit(&mut a, "4");
    push_lit(&mut a, out);
    assert(texts(a@) =~= ffmpeg_thumb_args(kind, input@, out@));
    a
}

fn gs_thumb(input: &str, out: &str) -> (r: Vec<String>)
    ensures
        texts(r@) == gs_thumb_args(input@, out@),
{
    let mut a: Vec<String> = Vec::new();
    push_lit(&mut a, "-q");
    push_lit(&mut a, "-dNOPAUSE");
    push_lit(&mut a, "-dBATCH");
    push_lit(&mut a, "-dSAFER");
    push_lit(&mut a, "-sDEVICE=jpeg");
    push_lit(&mut a, "-dFirstPage=1");
    push_lit(&mut a, "-dLastPage=1");
    push_lit(&mut a, "-r40");
    push_lit(&mut a, "-dJPEGQ=80");
    push_arg(&mut a, cat("-sOutputFile=", out));
    push_lit(&mut a, input);
    assert(texts(a@) =~= gs_thumb_args(input@, out@));
    a
}

/// Plans the command that renders a thumbnail of `input` into `out`.
pub fn plan_thumbnail(kind: MediaKind, input: &str, out: &str) -> (r: Option<(ThumbTool, Vec<String>)>)
    ensures
        match thumb_command(kind, input@, out@) {
            None => r is None,
            Some(c) => r is Some && r.unwrap().0 == c.0 && texts(r.unwrap().1@) == c.1,
        },
{
    match kind {
        MediaKind::Video | MediaKind::Gif | MediaKind::Image => Some((ThumbTool::Ffmpeg, ffmpeg_thumb(kind, input, out))),
        MediaKind::Pdf => Some((ThumbTool::Ghostscript, gs_thumb(input, out))),
        MediaKind::Unknown => None,
    }
}

} // verus!
