//! Clipboard content and the decisions of the clipboard watcher: what a
//! read yields, and when new content is reported.
use vstd::prelude::*;

use crate::history::{MAX_ENTRY_BYTES, MAX_IMAGE_BYTES};
use crate::text::string_from_utf8;

verus! {

/// What `DefaultHasher` (the fixed-key SipHash that `DefaultHasher::new`
/// builds) gives for a string with these characters.
pub uninterp spec fn str_hash(text: Seq<char>) -> u64;

/// Wraps `BuildHasher::hash_one` with `DefaultHasher` on a `str`: the
/// contract names the result, which depends on the characters alone.
#[verifier::external_body]
fn default_hash_str(text: &str) -> (h: u64)
    ensures
        h == str_hash(text@),
{
    std::hash::BuildHasher::hash_one(
        &std::hash::BuildHasherDefault::<std::hash::DefaultHasher>::default(),
        text,
    )
}

/// Wraps `BuildHasher::hash_one` with `DefaultHasher` on a byte slice. The
/// slice hash takes in its length as a native-width integer, so its value
/// differs between platforms and is left unstated.
#[verifier::external_body]
fn default_hash_bytes(bytes: &[u8]) -> u64 {
    std::hash::BuildHasher::hash_one(
        &std::hash::BuildHasherDefault::<std::hash::DefaultHasher>::default(),
        bytes,
    )
}

/// Hash of clipboard text, used to recognise content seen before.
pub fn hash_text(text: &str) -> (h: u64)
    ensures
        h == str_hash(text@),
{
    default_hash_str(text)
}

/// Content read from the clipboard.
#[derive(Clone, Debug)]
pub enum Clip {
    /// Plain text, and its `text/html` form when the source offered one.
    Text(String, Option<String>),
    /// Image bytes and the format their signature names.
    Image(Vec<u8>, ImageFormat),
}

/// The hash the watcher compares: 0 for no content, the text hash for
/// text, the byte hash for an image.
pub fn content_hash(content: &Option<Clip>) -> (h: u64)
    ensures
        content is None ==> h == 0,
        content matches Some(Clip::Text(t, _)) ==> h == str_hash(t@),
{
    match content {
        Some(Clip::Text(t, _)) => hash_text(t.as_str()),
        Some(Clip::Image(b, _)) => default_hash_bytes(b.as_slice()),
        None => 0,
    }
}

/// The hash reported after the applet puts `content` on the clipboard, so
/// the watcher can tell its own copy: the text hash for text (whatever its
/// HTML form, which the watcher does not read for its hash), and for an
/// image the same byte hash that `content_hash` takes, whose value is left
/// unstated.
pub fn copied_hash(content: &Clip) -> (h: u64)
    ensures
        content matches Clip::Text(t, _) ==> h == str_hash(t@),
{
    match content {
        Clip::Text(t, _) => hash_text(t.as_str()),
        Clip::Image(b, _) => default_hash_bytes(b.as_slice()),
    }
}

/// Interval between clipboard polls: the configured one, at least 100 ms.
pub fn poll_interval_ms(poll_ms: u64) -> (r: u64)
    ensures
        r == if poll_ms < 100 { 100 } else { poll_ms },
{
    if poll_ms < 100 { 100 } else { poll_ms }
}

/// The watcher's memory: the hash of what the clipboard held at the last
/// poll, once a first poll has set it.
pub struct Poller {
    pub baseline: u64,
    pub initialized: bool,
}

/// After a poll that read content with hash `current`: the new state, and
/// whether the content is reported.
pub open spec fn observe_spec(p: Poller, current: u64) -> (Poller, bool) {
    if !p.initialized {
        (Poller { baseline: current, initialized: true }, false)
    } else if current != p.baseline {
        (Poller { baseline: current, initialized: true }, true)
    } else {
        (p, false)
    }
}

impl Poller {
    /// The watcher before its first poll: the first read is a baseline.
    pub fn new() -> (p: Self)
        ensures
            !p.initialized,
            p.baseline == 0,
    {
        Poller { baseline: 0, initialized: false }
    }

    /// Takes one poll's content and its hash; hands the content back when it
    /// is to be reported. The first read after startup only sets the
    /// baseline; later reads are reported when their hash differs from the
    /// previous read's.
    pub fn observe(&mut self, current: u64, content: Option<Clip>) -> (emitted: Option<Clip>)
        ensures
            (*final(self), emitted is Some) == (observe_spec(*old(self), current).0, observe_spec(
                *old(self),
                current,
            ).1 && content is Some),
            emitted is Some ==> emitted == content,
    {
        if !self.initialized {
            self.initialized = true;
            self.baseline = current;
            return None;
        }
        if current != self.baseline {
            self.baseline = current;
            return content;
        }
        None
    }
}

/// The image formats the applet captures, in the order their offers are
/// probed.
#[derive(Clone, Copy, Debug, PartialEq, Eq, Structural)]
pub enum ImageFormat {
    Png,
    Jpeg,
    Gif,
    Webp,
    Bmp,
}

/// The order in which image offers are asked for.
pub open spec fn probe_order() -> Seq<ImageFormat> {
    seq![ImageFormat::Png, ImageFormat::Jpeg, ImageFormat::Gif, ImageFormat::Webp, ImageFormat::Bmp]
}

/// The image offers to ask for, in order: PNG, JPEG, GIF, WebP, BMP.
pub fn image_probe_order() -> (r: Vec<ImageFormat>)
    ensures
        r@ == probe_order(),
{
    let r = vec![
        ImageFormat::Png,
        ImageFormat::Jpeg,
        ImageFormat::Gif,
        ImageFormat::Webp,
        ImageFormat::Bmp,
    ];
    assert(r@ =~= probe_order());
    r
}

/// File extension of a stored payload.
pub open spec fn ext_spec(f: ImageFormat) -> Seq<char> {
    match f {
        ImageFormat::Png => seq!['p', 'n', 'g'],
        ImageFormat::Jpeg => seq!['j', 'p', 'g'],
        ImageFormat::Gif => seq!['g', 'i', 'f'],
        ImageFormat::Webp => seq!['w', 'e', 'b', 'p'],
        ImageFormat::Bmp => seq!['b', 'm', 'p'],
    }
}

/// MIME type of the format, as offered and asked for on the clipboard.
pub open spec fn mime_spec(f: ImageFormat) -> Seq<char> {
    seq!['i', 'm', 'a', 'g', 'e', '/'] + match f {
        ImageFormat::Png => seq!['p', 'n', 'g'],
        ImageFormat::Jpeg => seq!['j', 'p', 'e', 'g'],
        ImageFormat::Gif => seq!['g', 'i', 'f'],
        ImageFormat::Webp => seq!['w', 'e', 'b', 'p'],
        ImageFormat::Bmp => seq!['b', 'm', 'p'],
    }
}

fn push_all(s: &mut String, chars: &[char])
    ensures
        final(s)@ == old(s)@ + chars@,
{
    let mut i: usize = 0;
    while i < chars.len()
        invariant
            i <= chars@.len(),
            s@ == old(s)@ + chars@.take(i as int),
        decreases chars.len() - i,
    {
        s.push(chars[i]);
        i += 1;
        assert(s@ =~= old(s)@ + chars@.take(i as int));
    }
    assert(chars@.take(chars@.len() as int) =~= chars@);
}

impl ImageFormat {
    /// File extension of a stored payload in this format.
    pub fn ext(&self) -> (r: String)
        ensures
            r@ == ext_spec(*self),
    {
        let mut r = String::new();
        match self {
            ImageFormat::Png => push_all(&mut r, &['p', 'n', 'g']),
            ImageFormat::Jpeg => push_all(&mut r, &['j', 'p', 'g']),
            ImageFormat::Gif => push_all(&mut r, &['g', 'i', 'f']),
            ImageFormat::Webp => push_all(&mut r, &['w', 'e', 'b', 'p']),
            ImageFormat::Bmp => push_all(&mut r, &['b', 'm', 'p']),
        }
        assert(r@ =~= ext_spec(*self));
        r
    }

    /// MIME type of this format.
    pub fn mime_type(&self) -> (r: String)
        ensures
            r@ == mime_spec(*self),
    {
        let mut r = String::new();
        push_all(&mut r, &['i', 'm', 'a', 'g', 'e', '/']);
        match self {
            ImageFormat::Png => push_all(&mut r, &['p', 'n', 'g']),
            ImageFormat::Jpeg => push_all(&mut r, &['j', 'p', 'e', 'g']),
            ImageFormat::Gif => push_all(&mut r, &['g', 'i', 'f']),
            ImageFormat::Webp => push_all(&mut r, &['w', 'e', 'b', 'p']),
            ImageFormat::Bmp => push_all(&mut r, &['b', 'm', 'p']),
        }
        assert(r@ =~= mime_spec(*self));
        r
    }
}

/// `pat` occurs in `b` at offset `at`.
pub open spec fn bytes_at(b: Seq<u8>, at: int, pat: Seq<u8>) -> bool {
    at + pat.len() <= b.len() && b.subrange(at, at + pat.len()) == pat
}

pub open spec fn png_magic() -> Seq<u8> {
    seq![0x89u8, 0x50u8, 0x4eu8, 0x47u8, 0x0du8, 0x0au8, 0x1au8, 0x0au8]
}

pub open spec fn jpeg_magic() -> Seq<u8> {
    seq![0xffu8, 0xd8u8, 0xffu8]
}

/// `GIF87a`.
pub open spec fn gif87_magic() -> Seq<u8> {
    seq![0x47u8, 0x49u8, 0x46u8, 0x38u8, 0x37u8, 0x61u8]
}

/// `GIF89a`.
pub open spec fn gif89_magic() -> Seq<u8> {
    seq![0x47u8, 0x49u8, 0x46u8, 0x38u8, 0x39u8, 0x61u8]
}

/// `RIFF`, the container a WebP file starts with.
pub open spec fn riff_magic() -> Seq<u8> {
    seq![0x52u8, 0x49u8, 0x46u8, 0x46u8]
}

/// `WEBP`, at offset 8 of a WebP file.
pub open spec fn webp_magic() -> Seq<u8> {
    seq![0x57u8, 0x45u8, 0x42u8, 0x50u8]
}

/// `BM`.
pub open spec fn bmp_magic() -> Seq<u8> {
    seq![0x42u8, 0x4du8]
}

/// The format the signature bytes of `b` name, if any.
pub open spec fn sniff_spec(b: Seq<u8>) -> Option<ImageFormat> {
    if bytes_at(b, 0, png_magic()) {
        Some(ImageFormat::Png)
    } else if bytes_at(b, 0, jpeg_magic()) {
        Some(ImageFormat::Jpeg)
    } else if bytes_at(b, 0, gif87_magic()) || bytes_at(b, 0, gif89_magic()) {
        Some(ImageFormat::Gif)
    } else if bytes_at(b, 0, riff_magic()) && bytes_at(b, 8, webp_magic()) {
        Some(ImageFormat::Webp)
    } else if bytes_at(b, 0, bmp_magic()) {
        Some(ImageFormat::Bmp)
    } else {
        None
    }
}

fn matches_at(b: &[u8], at: usize, pat: &[u8]) -> (r: bool)
    requires
        at <= 16,
    ensures
        r == bytes_at(b@, at as int, pat@),
{
    if pat.len() > b.len() || at > b.len() - pat.len() {
        return false;
    }
    let n = b.len();
    let mut i: usize = 0;
    while i < pat.len()
        invariant
            i <= pat@.len(),
            n == b@.len(),
            at + pat@.len() <= b@.len(),
            forall|j: int| 0 <= j < i ==> b@[at + j] == pat@[j],
        decreases pat.len() - i,
    {
        if b[at + i] != pat[i] {
            assert(b@.subrange(at as int, at + pat@.len())[i as int] != pat@[i as int]);
            return false;
        }
        i += 1;
    }
    assert(b@.subrange(at as int, at + pat@.len()) =~= pat@);
    true
}

/// The image format named by the signature bytes of `bytes`: PNG, JPEG,
/// GIF (87a or 89a), WebP (`RIFF` then `WEBP` at offset 8) or BMP.
pub fn sniff_format(bytes: &[u8]) -> (r: Option<ImageFormat>)
    ensures
        r == sniff_spec(bytes@),
{
    let png: [u8; 8] = [0x89, 0x50, 0x4e, 0x47, 0x0d, 0x0a, 0x1a, 0x0a];
    let jpeg: [u8; 3] = [0xff, 0xd8, 0xff];
    let gif87: [u8; 6] = [0x47, 0x49, 0x46, 0x38, 0x37, 0x61];
    let gif89: [u8; 6] = [0x47, 0x49, 0x46, 0x38, 0x39, 0x61];
    let riff: [u8; 4] = [0x52, 0x49, 0x46, 0x46];
    let webp: [u8; 4] = [0x57, 0x45, 0x42, 0x50];
    let bmp: [u8; 2] = [0x42, 0x4d];
    assert(png@ =~= png_magic());
    assert(jpeg@ =~= jpeg_magic());
    assert(gif87@ =~= gif87_magic());
    assert(gif89@ =~= gif89_magic());
    assert(riff@ =~= riff_magic());
    assert(webp@ =~= webp_magic());
    assert(bmp@ =~= bmp_magic());
    if matches_at(bytes, 0, &png) {
        Some(ImageFormat::Png)
    } else if matches_at(bytes, 0, &jpeg) {
        Some(ImageFormat::Jpeg)
    } else if matches_at(bytes, 0, &gif87) || matches_at(bytes, 0, &gif89) {
        Some(ImageFormat::Gif)
    } else if matches_at(bytes, 0, &riff) && matches_at(bytes, 8, &webp) {
        Some(ImageFormat::Webp)
    } else if matches_at(bytes, 0, &bmp) {
        Some(ImageFormat::Bmp)
    } else {
        None
    }
}

/// How the plain-text read of a clipboard ended.
pub enum TextRead {
    /// The offer was read; these are its first bytes, at most one past the
    /// text size cap.
    Bytes(Vec<u8>),
    /// The clipboard offers no text type.
    NoMimeType,
    /// The clipboard is empty, there is no seat, or reading failed.
    Nothing,
}

/// What the reader does after the text read.
pub enum ReadStep {
    /// Reading is over, with this content.
    Done(Option<Clip>),
    /// Read the image offers next, in `image_probe_order`.
    ReadImage,
}

/// Decides what a plain-text read yields: text over the size cap or not
/// valid UTF-8 is skipped; when no text is offered and image capture is on,
/// the image offers are read next.
pub fn after_text_read(read: TextRead, capture_images: bool) -> (step: ReadStep)
    ensures
        match read {
            TextRead::Bytes(buf) => if buf@.len() > MAX_ENTRY_BYTES
                || !vstd::utf8::valid_utf8(buf@) {
                step matches ReadStep::Done(None)
            } else {
                step matches ReadStep::Done(Some(Clip::Text(s, None))) && s@ == vstd::utf8::decode_utf8(
                    buf@,
                )
            },
            TextRead::NoMimeType => if capture_images {
                step is ReadImage
            } else {
                step matches ReadStep::Done(None)
            },
            TextRead::Nothing => step matches ReadStep::Done(None),
        },
{
    match read {
        TextRead::Bytes(buf) => {
            if buf.len() > MAX_ENTRY_BYTES {
                return ReadStep::Done(None);
            }
            match string_from_utf8(buf) {
                Some(s) => ReadStep::Done(Some(Clip::Text(s, None))),
                None => ReadStep::Done(None),
            }
        },
        TextRead::NoMimeType => if capture_images {
            ReadStep::ReadImage
        } else {
            ReadStep::Done(None)
        },
        TextRead::Nothing => ReadStep::Done(None),
    }
}

/// Decides what an image read yields (`None` when no image offer could be
/// read): empty data, data over the image size cap, and data whose
/// signature names none of the captured formats are skipped; otherwise the
/// bytes come with the format their signature names, whatever the offer
/// claimed.
pub fn after_image_read(buf: Option<Vec<u8>>) -> (r: Option<Clip>)
    ensures
        match buf {
            Some(b) => if 1 <= b@.len() <= MAX_IMAGE_BYTES && sniff_spec(b@) is Some {
                r == Some(Clip::Image(b, sniff_spec(b@)->0))
            } else {
                r is None
            },
            None => r is None,
        },
{
    match buf {
        Some(b) => {
            if b.len() == 0 || b.len() > MAX_IMAGE_BYTES {
                return None;
            }
            match sniff_format(b.as_slice()) {
                Some(format) => Some(Clip::Image(b, format)),
                None => None,
            }
        },
        None => None,
    }
}

/// Attaches the HTML form to new clipboard text. `read` is what the
/// `text/html` offer gave (at most one past the text size cap), `None` when
/// there is no such offer; it is kept when within the cap and valid UTF-8.
/// Images, and text without a usable HTML form, come back unchanged.
pub fn with_html(content: Clip, read: Option<Vec<u8>>) -> (r: Clip)
    ensures
        match content {
            Clip::Text(t, h) => match read {
                Some(b) => if b@.len() <= MAX_ENTRY_BYTES && vstd::utf8::valid_utf8(b@) {
                    r matches Clip::Text(t2, Some(h2)) && t2 == t && h2@
                        == vstd::utf8::decode_utf8(b@)
                } else {
                    r == Clip::Text(t, h)
                },
                None => r == Clip::Text(t, h),
            },
            Clip::Image(b, f) => r == Clip::Image(b, f),
        },
{
    match content {
        Clip::Text(text, html) => match read {
            Some(bytes) => {
                if bytes.len() > MAX_ENTRY_BYTES {
                    return Clip::Text(text, html);
                }
                match string_from_utf8(bytes) {
                    Some(h) => Clip::Text(text, Some(h)),
                    None => Clip::Text(text, html),
                }
            },
            None => Clip::Text(text, html),
        },
        Clip::Image(bytes, format) => Clip::Image(bytes, format),
    }
}

/// The first poll is never reported, and content whose hash equals the
/// previous poll's is never reported.
pub proof fn law_poller_reports_only_changes(p: Poller, current: u64)
    ensures
        !p.initialized ==> !observe_spec(p, current).1,
        observe_spec(p, current).0.initialized,
        observe_spec(p, current).0.baseline == current,
        !observe_spec(observe_spec(p, current).0, current).1,
{
}

} // verus!
